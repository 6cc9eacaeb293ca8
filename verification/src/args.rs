//! The choices that a user makes on the command line.
use vstd::prelude::*;

use crate::workload::{DatasetName, EngineName, Workload};

verus! {

/// The engine to run.
#[derive(Debug, Clone, Copy, PartialEq, Eq, Structural)]
pub enum EngineArg {
    Lance,
    LanceFragment,
    Parquet,
}

/// The dataset to run on.
#[derive(Debug, Clone, Copy, PartialEq, Eq, Structural)]
pub enum DatasetArg {
    Laion10m,
    OpenVid,
    FineWeb,
    LeRobotPushT,
    LeRobotPushTImage,
}

/// How to write a Lance dataset.
#[derive(Debug, Clone, Copy, PartialEq, Eq, Structural)]
pub enum LanceWriteModeArg {
    Create,
    Append,
    Overwrite,
}

/// What a scan reads.
#[derive(Debug, Clone, Copy, PartialEq, Eq, Structural)]
pub enum ScanModeArg {
    Full,
    Project,
    FilterLow,
    FilterHigh,
}

/// The workload to run.
#[derive(Debug, Clone, Copy, PartialEq, Eq, Structural)]
pub enum WorkloadArg {
    ScanFull,
    ScanProject,
    ScanFilterLow,
    ScanFilterHigh,
    RandomTake,
    RandomBlob,
    EvolutionBackfill,
    Size,
}

/// The engine that an argument names.
pub open spec fn engine_named(arg: EngineArg) -> EngineName {
    match arg {
        EngineArg::Lance => EngineName::Lance,
        EngineArg::LanceFragment => EngineName::LanceFragment,
        EngineArg::Parquet => EngineName::Parquet,
    }
}

/// The dataset that an argument names.
pub open spec fn dataset_named(arg: DatasetArg) -> DatasetName {
    match arg {
        DatasetArg::Laion10m => DatasetName::Laion10m,
        DatasetArg::OpenVid => DatasetName::OpenVid,
        DatasetArg::FineWeb => DatasetName::FineWeb,
        DatasetArg::LeRobotPushT => DatasetName::LeRobotPushT,
        DatasetArg::LeRobotPushTImage => DatasetName::LeRobotPushTImage,
    }
}

/// The workload of a scan.
pub open spec fn scan_workload_of(mode: ScanModeArg) -> Workload {
    match mode {
        ScanModeArg::Full => Workload::ScanFull,
        ScanModeArg::Project => Workload::ScanProject,
        ScanModeArg::FilterLow => Workload::ScanFilterLow,
        ScanModeArg::FilterHigh => Workload::ScanFilterHigh,
    }
}

impl vstd::std_specs::convert::FromSpecImpl<EngineArg> for EngineName {
    open spec fn obeys_from_spec() -> bool {
        true
    }

    open spec fn from_spec(arg: EngineArg) -> EngineName {
        engine_named(arg)
    }
}

impl From<EngineArg> for EngineName {
    fn from(arg: EngineArg) -> (engine: EngineName) {
        match arg {
            EngineArg::Lance => EngineName::Lance,
            EngineArg::LanceFragment => EngineName::LanceFragment,
            EngineArg::Parquet => EngineName::Parquet,
        }
    }
}

impl vstd::std_specs::convert::FromSpecImpl<DatasetArg> for DatasetName {
    open spec fn obeys_from_spec() -> bool {
        true
    }

    open spec fn from_spec(arg: DatasetArg) -> DatasetName {
        dataset_named(arg)
    }
}

impl From<DatasetArg> for DatasetName {
    fn from(arg: DatasetArg) -> (dataset: DatasetName) {
        match arg {
            DatasetArg::Laion10m => DatasetName::Laion10m,
            DatasetArg::OpenVid => DatasetName::OpenVid,
            DatasetArg::FineWeb => DatasetName::FineWeb,
            DatasetArg::LeRobotPushT => DatasetName::LeRobotPushT,
            DatasetArg::LeRobotPushTImage => DatasetName::LeRobotPushTImage,
        }
    }
}

/// The workload of a scan.
pub fn scan_workload(mode: ScanModeArg) -> (workload: Workload)
    ensures
        workload == scan_workload_of(mode),
{
    match mode {
        ScanModeArg::Full => Workload::ScanFull,
        ScanModeArg::Project => Workload::ScanProject,
        ScanModeArg::FilterLow => Workload::ScanFilterLow,
        ScanModeArg::FilterHigh => Workload::ScanFilterHigh,
    }
}

/// The short name of a dataset.
pub open spec fn dataset_id(arg: DatasetArg) -> Seq<char> {
    match arg {
        DatasetArg::Laion10m => "laion10m"@,
        DatasetArg::OpenVid => "openvid"@,
        DatasetArg::FineWeb => "fineweb"@,
        DatasetArg::LeRobotPushT => "lerobot-pusht"@,
        DatasetArg::LeRobotPushTImage => "lerobot-pusht_image"@,
    }
}

impl DatasetArg {
    /// The directory that a download goes to.
    pub fn default_out_dir(&self) -> (dir: &'static str)
        ensures
            dir@ == "data/"@ + dataset_id(*self),
    {
        let dir = match self {
            DatasetArg::Laion10m => "data/laion10m",
            DatasetArg::OpenVid => "data/openvid",
            DatasetArg::FineWeb => "data/fineweb",
            DatasetArg::LeRobotPushT => "data/lerobot-pusht",
            DatasetArg::LeRobotPushTImage => "data/lerobot-pusht_image",
        };
        proof {
            reveal_strlit("data/");
            reveal_strlit("data/laion10m");
            reveal_strlit("laion10m");
            reveal_strlit("data/openvid");
            reveal_strlit("openvid");
            reveal_strlit("data/fineweb");
            reveal_strlit("fineweb");
            reveal_strlit("data/lerobot-pusht");
            reveal_strlit("lerobot-pusht");
            reveal_strlit("data/lerobot-pusht_image");
            reveal_strlit("lerobot-pusht_image");
            assert(dir@ =~= "data/"@ + dataset_id(*self));
        }
        dir
    }

    /// The short name of the dataset.
    pub fn id(&self) -> (id: &'static str)
        ensures
            id@ == dataset_id(*self),
    {
        match self {
            DatasetArg::Laion10m => "laion10m",
            DatasetArg::OpenVid => "openvid",
            DatasetArg::FineWeb => "fineweb",
            DatasetArg::LeRobotPushT => "lerobot-pusht",
            DatasetArg::LeRobotPushTImage => "lerobot-pusht_image",
        }
    }
}

/// The name of a write mode.
pub open spec fn write_mode_word(mode: LanceWriteModeArg) -> Seq<char> {
    match mode {
        LanceWriteModeArg::Create => "create"@,
        LanceWriteModeArg::Append => "append"@,
        LanceWriteModeArg::Overwrite => "overwrite"@,
    }
}

/// The name of a write mode.
pub fn write_mode_name(mode: LanceWriteModeArg) -> (name: &'static str)
    ensures
        name@ == write_mode_word(mode),
{
    match mode {
        LanceWriteModeArg::Create => "create",
        LanceWriteModeArg::Append => "append",
        LanceWriteModeArg::Overwrite => "overwrite",
    }
}

/// The columns that hold blobs.
pub open spec fn blob_column_of(dataset: DatasetName) -> Option<Seq<char>> {
    match dataset {
        DatasetName::Laion10m => Some("image"@),
        DatasetName::OpenVid => Some("video_blob"@),
        _ => None,
    }
}

/// The columns that hold blobs: at most one.
pub fn blob_columns(dataset: DatasetName) -> (columns: Vec<&'static str>)
    ensures
        match blob_column_of(dataset) {
            Some(c) => columns.len() == 1 && columns@[0]@ == c,
            None => columns.len() == 0,
        },
{
    match dataset {
        DatasetName::Laion10m => vec!["image"],
        DatasetName::OpenVid => vec!["video_blob"],
        _ => Vec::new(),
    }
}

} // verus!
