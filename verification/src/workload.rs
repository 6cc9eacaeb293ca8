//! Names of the engines, datasets and workloads of a benchmark run.
use vstd::prelude::*;

verus! {

/// A storage engine under test.
#[derive(Debug, Clone, Copy, PartialEq, Eq, Structural)]
pub enum EngineName {
    Unknown,
    Lance,
    LanceFragment,
    Parquet,
}

/// A dataset that a run reads.
#[derive(Debug, Clone, Copy, PartialEq, Eq, Structural)]
pub enum DatasetName {
    Unknown,
    Laion10m,
    OpenVid,
    FineWeb,
    LeRobotPushT,
    LeRobotPushTImage,
}

/// What a run measures.
#[derive(Debug, Clone, Copy, PartialEq, Eq, Structural)]
pub enum Workload {
    Ingest,
    ScanFull,
    ScanProject,
    ScanFilterLow,
    ScanFilterHigh,
    RandomTake,
    RandomBlob,
    EvolutionBackfill,
    Size,
}

} // verus!
