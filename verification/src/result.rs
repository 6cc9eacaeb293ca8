//! What a run records.
use vstd::prelude::*;

use crate::metrics::{LatencySummary, Timing};
use crate::params::Params;
use crate::workload::{DatasetName, EngineName, Workload};

verus! {

/// What was run, and where.
#[derive(Debug, Clone)]
pub struct RunMetadata {
    pub bench_version: String,
    pub git_commit: String,
    pub os: String,
    pub arch: String,
    pub cpu_count: u64,
    pub engine_version: String,
    pub engine: EngineName,
    pub dataset: DatasetName,
    pub workload: Workload,
    pub seed: u64,
    pub started_at_unix_ms: u128,
    pub rustc: String,
    pub params: Params,
}

/// What a run measured.
#[derive(Debug, Clone)]
pub struct RunResult {
    pub meta: RunMetadata,
    pub timing: Timing,
    pub rows: Option<u64>,
    pub bytes: Option<u64>,
    pub latency: Option<LatencySummary>,
    pub notes: Vec<String>,
}

} // verus!
