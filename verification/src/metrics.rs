//! Wall times and latency summaries.
use std::time::{Duration, Instant};
use vstd::prelude::*;

verus! {

/// The point in time type of std, taken as opaque.
#[verifier::external_type_specification]
#[verifier::external_body]
pub struct ExInstant(std::time::Instant);

/// The whole nanoseconds of a duration.
pub uninterp spec fn duration_nanos(duration: Duration) -> nat;

/// `Duration::as_nanos` returns the total number of nanoseconds of the duration.
pub assume_specification[ Duration::as_nanos ](duration: &Duration) -> (nanos: u128)
    ensures
        nanos == duration_nanos(*duration),
;

/// `Instant::now` reads the monotonic clock. Nothing is said of the instant: it depends on time.
pub assume_specification[ Instant::now ]() -> Instant
;

/// `Instant::elapsed` is the time passed since the instant. Nothing is said of its length: it
/// depends on time.
pub assume_specification[ Instant::elapsed ](start: &Instant) -> Duration
;

/// How long a run took.
#[derive(Debug, Clone)]
pub struct Timing {
    pub wall_time_us: u128,
    pub wall_time_ms: u128,
    pub repeat_wall_time_us: Option<Vec<u128>>,
}

impl Timing {
    /// Whether this is the timing of a single run that took `nanos` nanoseconds.
    pub open spec fn measures(self, nanos: nat) -> bool {
        &&& self.wall_time_us == nanos / 1000
        &&& self.wall_time_ms == nanos / 1_000_000
        &&& self.repeat_wall_time_us is None
    }

    /// The timing of a run: whole microseconds and whole milliseconds.
    pub fn from_duration(duration: Duration) -> (timing: Timing)
        ensures
            timing.measures(duration_nanos(duration)),
    {
        let nanos: u128 = duration.as_nanos();
        Timing {
            wall_time_us: nanos / 1000,
            wall_time_ms: nanos / 1_000_000,
            repeat_wall_time_us: None,
        }
    }
}

/// The milliseconds of a timing are its microseconds, cut to whole milliseconds.
pub proof fn law_timing_units(timing: Timing, nanos: nat)
    requires
        timing.measures(nanos),
    ensures
        timing.wall_time_ms == timing.wall_time_us / 1000,
{
}

/// A running clock.
pub struct WallTimer {
    start: Instant,
}

impl WallTimer {
    /// Starts the clock.
    pub fn start() -> WallTimer {
        WallTimer { start: Instant::now() }
    }

    /// Stops the clock. The result is the timing of some duration: which one depends on time.
    pub fn stop(self) -> (timing: Timing)
        ensures
            exists|duration: Duration| timing.measures(#[trigger] duration_nanos(duration)),
    {
        let duration = self.start.elapsed();
        Timing::from_duration(duration)
    }
}

/// Percentiles of the latencies of a run.
#[derive(Debug, Clone, Copy, PartialEq, Eq, Structural)]
pub struct LatencySummary {
    pub p50_us: u64,
    pub p95_us: u64,
    pub p99_us: u64,
}

} // verus!
