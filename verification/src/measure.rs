//! Measuring repeated reads: wall times, latencies, rows and bytes.
use std::time::Duration;

use hdrhistogram::Histogram;
use rand::rngs::StdRng;
use rand::{Rng, SeedableRng};
use vstd::prelude::*;

use crate::metrics::{duration_nanos, Timing};
use crate::parquet_reads::cut_u64;

verus! {

/// A histogram of `hdrhistogram`, taken as opaque.
#[verifier::external_body]
pub struct LatencyHistogram {
    pub inner: Histogram<u64>,
}

/// Why `hdrhistogram` did not make a histogram.
#[verifier::external_type_specification]
#[verifier::external_body]
pub struct ExCreationError(hdrhistogram::CreationError);

/// Why `hdrhistogram` did not take a sample.
#[verifier::external_type_specification]
#[verifier::external_body]
pub struct ExRecordError(hdrhistogram::RecordError);

/// The seeded generator of `rand`, taken as opaque.
#[verifier::external_type_specification]
#[verifier::external_body]
pub struct ExStdRng(rand::rngs::StdRng);

/// How many samples a histogram holds.
pub uninterp spec fn sample_count(histogram: LatencyHistogram) -> nat;

/// Whether a histogram grows to hold a sample beyond its range.
pub uninterp spec fn grows(histogram: LatencyHistogram) -> bool;

/// The histogram without samples that keeps so many significant digits.
pub uninterp spec fn empty_histogram(digits: u8) -> LatencyHistogram;

/// A histogram with one more sample.
pub uninterp spec fn with_sample(histogram: LatencyHistogram, value: u64) -> LatencyHistogram;

/// `Histogram::new`: an empty histogram that grows. With up to five digits it is always made: the
/// only other failure is a bin count beyond `usize`, and the first bins are few.
#[verifier::external_body]
fn new_histogram(digits: u8) -> (made: Result<LatencyHistogram, hdrhistogram::CreationError>)
    ensures
        made is Ok <==> digits <= 5,
        made matches Ok(h) ==> h == empty_histogram(digits),
        made matches Ok(h) ==> sample_count(h) == 0 && grows(h),
{
    Histogram::<u64>::new(digits).map(|inner| LatencyHistogram { inner })
}

/// `Histogram::record`: adds one sample. A histogram that grows takes every value; the count of
/// samples stops at the largest `u64`.
#[verifier::external_body]
fn record_sample(histogram: &mut LatencyHistogram, value: u64) -> (taken: Result<
    (),
    hdrhistogram::RecordError,
>)
    ensures
        grows(*old(histogram)) ==> taken is Ok,
        taken is Ok ==> *final(histogram) == with_sample(*old(histogram), value),
        taken is Ok ==> sample_count(*final(histogram)) == if sample_count(*old(histogram))
            < u64::MAX {
            sample_count(*old(histogram)) + 1
        } else {
            sample_count(*old(histogram))
        },
        grows(*final(histogram)) == grows(*old(histogram)),
        taken is Err ==> *final(histogram) == *old(histogram),
{
    histogram.inner.record(value)
}

/// `Histogram::len`: the number of samples.
#[verifier::external_body]
fn histogram_len(histogram: &LatencyHistogram) -> (n: u64)
    ensures
        n == sample_count(*histogram),
{
    histogram.inner.len()
}

/// What decides the numbers that a generator draws: the key of its stream, and how many words of
/// the stream it has used.
pub struct GeneratorState {
    pub key: Seq<u8>,
    pub position: nat,
}

/// The state of a generator.
pub uninterp spec fn generator_state(generator: StdRng) -> GeneratorState;

/// The key of the generator for a seed.
pub uninterp spec fn seed_key(seed: u64) -> Seq<u8>;

/// The number below a bound that is drawn in a state.
pub uninterp spec fn number_drawn(state: GeneratorState, bound: u64) -> u64;

/// How many words of the stream are used once a number below a bound is drawn in a state.
pub uninterp spec fn position_after(state: GeneratorState, bound: u64) -> nat;

/// `SeedableRng::seed_from_u64`: a generator at the start of the stream that belongs to the seed.
/// Another version of `rand` may have another stream for it.
#[verifier::external_body]
fn seeded_generator(seed: u64) -> (generator: StdRng)
    ensures
        generator_state(generator) == (GeneratorState { key: seed_key(seed), position: 0 }),
{
    StdRng::seed_from_u64(seed)
}

/// `Rng::random_range` on `0..bound`: a number below the bound, which the state of the generator
/// decides. The generator moves on in its stream.
#[verifier::external_body]
fn draw_below(generator: &mut StdRng, bound: u64) -> (drawn: u64)
    requires
        bound > 0,
    ensures
        drawn < bound,
        drawn == number_drawn(generator_state(*old(generator)), bound),
        generator_state(*final(generator)) == (GeneratorState {
            key: generator_state(*old(generator)).key,
            position: position_after(generator_state(*old(generator)), bound),
        }),
{
    generator.random_range(0..bound)
}

/// Why a measurement failed.
#[derive(Debug, Clone, Copy, PartialEq, Eq, Structural)]
pub enum MeasureError {
    /// No histogram could be made.
    NoHistogram,
    /// A sample was not taken.
    NotRecorded,
}

/// The latencies of a run, with the histogram that summarises them.
pub struct Latencies {
    histogram: LatencyHistogram,
    samples: Ghost<Seq<u64>>,
}

/// The histogram of samples in the order in which they came.
pub open spec fn histogram_of(samples: Seq<u64>) -> LatencyHistogram
    decreases samples.len(),
{
    if samples.len() == 0 {
        empty_histogram(3)
    } else {
        with_sample(histogram_of(samples.drop_last()), samples.last())
    }
}

/// The whole microseconds of a number of nanoseconds, at most the largest `u64`.
pub open spec fn sample_of(nanos: nat) -> u64 {
    if nanos / 1000 < u64::MAX {
        (nanos / 1000) as u64
    } else {
        u64::MAX
    }
}

/// The whole microseconds of a duration, at most the largest `u64`.
pub fn latency_sample(elapsed: Duration) -> (sample: u64)
    ensures
        sample == sample_of(duration_nanos(elapsed)),
{
    let micros: u128 = elapsed.as_nanos() / 1000;
    if micros < 0xffff_ffff_ffff_ffff {
        micros as u64
    } else {
        u64::MAX
    }
}

impl Latencies {
    #[verifier::type_invariant]
    spec fn well_formed(self) -> bool {
        &&& grows(self.histogram)
        &&& self.histogram == histogram_of(self.samples@)
        &&& sample_count(self.histogram) == if self.samples@.len() < u64::MAX {
            self.samples@.len()
        } else {
            u64::MAX as nat
        }
    }

    /// The samples taken so far, in microseconds.
    pub closed spec fn samples(self) -> Seq<u64> {
        self.samples@
    }

    /// No samples yet.
    pub fn new() -> (made: Result<Latencies, MeasureError>)
        ensures
            made matches Ok(latencies) && latencies.samples() == Seq::<u64>::empty(),
    {
        match new_histogram(3) {
            Ok(histogram) => Ok(Latencies { histogram, samples: Ghost(Seq::empty()) }),
            Err(_) => Err(MeasureError::NoHistogram),
        }
    }

    /// Takes the time that one read took.
    pub fn record(self, elapsed: Duration) -> (taken: Result<Latencies, MeasureError>)
        ensures
            taken matches Ok(after) && after.samples() == self.samples().push(
                sample_of(duration_nanos(elapsed)),
            ),
    {
        proof {
            use_type_invariant(&self);
        }
        let sample: u64 = latency_sample(elapsed);
        let ghost before = self.samples@;
        let mut histogram = self.histogram;
        match record_sample(&mut histogram, sample) {
            Ok(_) => {
                assert(before.push(sample).drop_last() =~= before);
                Ok(Latencies { histogram, samples: Ghost(before.push(sample)) })
            },
            Err(_) => Err(MeasureError::NotRecorded),
        }
    }

    /// Whether a sample was taken.
    pub fn any(&self) -> (any: bool)
        ensures
            any == (self.samples().len() > 0),
    {
        proof {
            use_type_invariant(self);
        }
        histogram_len(&self.histogram) > 0
    }

    /// The histogram of the samples.
    pub fn histogram(&self) -> (histogram: &LatencyHistogram)
        ensures
            *histogram == histogram_of(self.samples()),
    {
        proof {
            use_type_invariant(self);
        }
        &self.histogram
    }
}

/// How often a read is made that is to be repeated so many times: at least once.
pub open spec fn times_read(repeats: u32) -> nat {
    if repeats == 0 {
        1
    } else {
        repeats as nat
    }
}

/// How often a read is repeated: at least once.
pub fn at_least_one(repeats: u32) -> (n: u32)
    ensures
        n == times_read(repeats),
{
    if repeats == 0 {
        1
    } else {
        repeats
    }
}

/// A sum that stops at the largest `u64`.
pub open spec fn capped_sum(total: u64, more: u64) -> u64 {
    if total + more <= u64::MAX {
        (total + more) as u64
    } else {
        u64::MAX
    }
}

/// The rows and bytes of the batches that one scan gave.
#[derive(Debug, Clone, Copy, PartialEq, Eq, Structural)]
pub struct ScanCount {
    pub rows: u64,
    pub bytes: u64,
}

/// Nothing counted.
pub open spec fn no_count() -> ScanCount {
    ScanCount { rows: 0, bytes: 0 }
}

/// A count with one batch more. The bytes stop at the largest `u64`.
pub open spec fn with_batch(count: ScanCount, rows: u64, bytes: u64) -> ScanCount {
    ScanCount { rows: (count.rows + rows) as u64, bytes: capped_sum(count.bytes, bytes) }
}

/// A count with one whole scan more.
pub open spec fn with_scan(count: ScanCount, scan: ScanCount) -> ScanCount {
    ScanCount {
        rows: (count.rows + scan.rows) as u64,
        bytes: (count.bytes + scan.bytes) as u64,
    }
}

impl ScanCount {
    /// Nothing counted.
    pub fn new() -> (count: ScanCount)
        ensures
            count == no_count(),
    {
        ScanCount { rows: 0, bytes: 0 }
    }

    /// Counts one batch. The bytes stop at the largest `u64`.
    pub fn add_batch(&mut self, rows: u64, bytes: u64)
        requires
            old(self).rows + rows <= u64::MAX,
        ensures
            *final(self) == with_batch(*old(self), rows, bytes),
    {
        self.rows = self.rows + rows;
        self.bytes = self.bytes.saturating_add(bytes);
    }

    /// Counts one whole scan.
    pub fn add_scan(&mut self, scan: ScanCount)
        requires
            old(self).rows + scan.rows <= u64::MAX,
            old(self).bytes + scan.bytes <= u64::MAX,
        ensures
            *final(self) == with_scan(*old(self), scan),
    {
        self.rows = self.rows + scan.rows;
        self.bytes = self.bytes + scan.bytes;
    }

    /// Counts a batch that goes by while it is written. Both counts wrap.
    pub fn pass_batch(&mut self, rows: u64, bytes: u64)
        ensures
            final(self).rows == (old(self).rows + rows) % 0x1_0000_0000_0000_0000,
            final(self).bytes == (old(self).bytes + bytes) % 0x1_0000_0000_0000_0000,
    {
        self.rows = self.rows.wrapping_add(rows);
        self.bytes = self.bytes.wrapping_add(bytes);
    }
}

/// A count after the rows and bytes of some batches.
pub open spec fn after_batches(count: ScanCount, batches: Seq<(u64, u64)>) -> ScanCount
    decreases batches.len(),
{
    if batches.len() == 0 {
        count
    } else {
        let before = after_batches(count, batches.drop_last());
        with_batch(before, batches.last().0, batches.last().1)
    }
}

/// How many rows some batches have.
pub open spec fn batch_rows(batches: Seq<(u64, u64)>) -> nat
    decreases batches.len(),
{
    if batches.len() == 0 {
        0
    } else {
        batch_rows(batches.drop_last()) + batches.last().0 as nat
    }
}

/// How many bytes some batches have.
pub open spec fn batch_bytes(batches: Seq<(u64, u64)>) -> nat
    decreases batches.len(),
{
    if batches.len() == 0 {
        0
    } else {
        batch_bytes(batches.drop_last()) + batches.last().1 as nat
    }
}

/// The count of a scan of some batches that is made so many times, batch by batch.
pub open spec fn repeated_count(batches: Seq<(u64, u64)>, times: nat) -> ScanCount
    decreases times,
{
    if times == 0 {
        no_count()
    } else {
        after_batches(repeated_count(batches, (times - 1) as nat), batches)
    }
}

/// The count of a scan of some batches that is made so many times, scan by scan.
pub open spec fn repeated_scans(batches: Seq<(u64, u64)>, times: nat) -> ScanCount
    decreases times,
{
    if times == 0 {
        no_count()
    } else {
        with_scan(
            repeated_scans(batches, (times - 1) as nat),
            after_batches(no_count(), batches),
        )
    }
}

proof fn lemma_after_batches(count: ScanCount, batches: Seq<(u64, u64)>)
    requires
        count.rows + batch_rows(batches) <= u64::MAX,
    ensures
        after_batches(count, batches).rows == count.rows + batch_rows(batches),
        after_batches(count, batches).bytes == cut_u64(count.bytes as nat + batch_bytes(batches)),
    decreases batches.len(),
{
    if batches.len() > 0 {
        lemma_after_batches(count, batches.drop_last());
    }
}

proof fn lemma_times(times: nat, n: nat)
    by (nonlinear_arith)
    ensures
        times == 0 ==> times * n == 0,
        times > 0 ==> times * n == (times - 1) * n + n,
{
}

proof fn lemma_repeated_count(batches: Seq<(u64, u64)>, times: nat)
    requires
        times * batch_rows(batches) <= u64::MAX,
    ensures
        repeated_count(batches, times).rows == times * batch_rows(batches),
        repeated_count(batches, times).bytes == cut_u64(times * batch_bytes(batches)),
    decreases times,
{
    lemma_times(times, batch_rows(batches));
    lemma_times(times, batch_bytes(batches));
    if times > 0 {
        lemma_repeated_count(batches, (times - 1) as nat);
        lemma_after_batches(repeated_count(batches, (times - 1) as nat), batches);
    }
}

proof fn lemma_repeated_scans(batches: Seq<(u64, u64)>, times: nat)
    requires
        times * batch_rows(batches) <= u64::MAX,
        times * cut_u64(batch_bytes(batches)) <= u64::MAX,
    ensures
        repeated_scans(batches, times).rows == times * batch_rows(batches),
        repeated_scans(batches, times).bytes == times * cut_u64(batch_bytes(batches)),
    decreases times,
{
    lemma_times(times, batch_rows(batches));
    lemma_times(times, cut_u64(batch_bytes(batches)) as nat);
    if times > 0 {
        lemma_repeated_scans(batches, (times - 1) as nat);
        lemma_after_batches(no_count(), batches);
    }
}

/// A scan that is counted batch by batch over `n` repeats gives `n` times its rows, and `n` times
/// its bytes, at most the largest `u64`. No repeats count as one.
pub proof fn law_repeats_multiply(batches: Seq<(u64, u64)>, repeats: u32)
    requires
        times_read(repeats) * batch_rows(batches) <= u64::MAX,
    ensures
        repeated_count(batches, times_read(repeats)).rows == times_read(repeats) * batch_rows(
            batches,
        ),
        repeated_count(batches, times_read(repeats)).bytes == cut_u64(
            times_read(repeats) * batch_bytes(batches),
        ),
        times_read(0) == 1,
        repeats > 0 ==> times_read(repeats) == repeats,
{
    lemma_repeated_count(batches, times_read(repeats));
}

/// A scan that is counted scan by scan over `n` repeats gives `n` times its rows and bytes. No
/// repeats count as one. Bytes that exceed their range in the sum are left out.
pub proof fn law_timed_repeats_multiply(batches: Seq<(u64, u64)>, repeats: u32)
    requires
        times_read(repeats) * batch_rows(batches) <= u64::MAX,
        times_read(repeats) * cut_u64(batch_bytes(batches)) <= u64::MAX,
    ensures
        repeated_scans(batches, times_read(repeats)).rows == times_read(repeats) * batch_rows(
            batches,
        ),
        repeated_scans(batches, times_read(repeats)).bytes == times_read(repeats) * cut_u64(
            batch_bytes(batches),
        ),
        times_read(0) == 1,
        repeats > 0 ==> times_read(repeats) == repeats,
{
    lemma_repeated_scans(batches, times_read(repeats));
}

/// The whole microseconds of each repeat.
pub open spec fn micros_of(nanos: Seq<nat>) -> Seq<u128> {
    Seq::new(nanos.len(), |i: int| (nanos[i] / 1000) as u128)
}

/// The samples of each repeat.
pub open spec fn samples_of(nanos: Seq<nat>) -> Seq<u64> {
    Seq::new(nanos.len(), |i: int| sample_of(nanos[i]))
}

/// A scan that is repeated and timed.
pub struct RepeatMeter {
    latencies: Latencies,
    wall_times_us: Vec<u128>,
    repeats: Ghost<Seq<nat>>,
}

/// What a repeated scan measured.
pub struct MeasuredRepeats {
    pub timing: Timing,
    pub latencies: Latencies,
}

impl RepeatMeter {
    #[verifier::type_invariant]
    spec fn well_formed(self) -> bool {
        &&& self.wall_times_us@ == micros_of(self.repeats@)
        &&& self.latencies.samples() == samples_of(self.repeats@)
    }

    /// The nanoseconds of the repeats so far.
    pub closed spec fn repeats(self) -> Seq<nat> {
        self.repeats@
    }

    /// Nothing measured.
    pub fn new() -> (made: Result<RepeatMeter, MeasureError>)
        ensures
            made matches Ok(meter) && meter.repeats() == Seq::<nat>::empty(),
    {
        match Latencies::new() {
            Ok(latencies) => {
                assert(micros_of(Seq::empty()) =~= Seq::empty());
                assert(samples_of(Seq::empty()) =~= Seq::empty());
                Ok(
                    RepeatMeter {
                        latencies,
                        wall_times_us: Vec::new(),
                        repeats: Ghost(Seq::empty()),
                    },
                )
            },
            Err(error) => Err(error),
        }
    }

    /// Takes one repeat.
    pub fn record(self, elapsed: Duration) -> (taken: Result<RepeatMeter, MeasureError>)
        ensures
            taken matches Ok(after) && after.repeats() == self.repeats().push(
                duration_nanos(elapsed),
            ),
    {
        proof {
            use_type_invariant(&self);
        }
        let ghost repeats = self.repeats@.push(duration_nanos(elapsed));
        let micros: u128 = elapsed.as_nanos() / 1000;
        let mut wall_times_us = self.wall_times_us;
        wall_times_us.push(micros);
        match self.latencies.record(elapsed) {
            Ok(latencies) => {
                assert(wall_times_us@ =~= micros_of(repeats));
                assert(latencies.samples() =~= samples_of(repeats));
                Ok(RepeatMeter { latencies, wall_times_us, repeats: Ghost(repeats) })
            },
            Err(error) => Err(error),
        }
    }

    /// Ends the measurement: the wall time of all repeats, with that of each.
    pub fn finish(self, wall: Timing) -> (measured: MeasuredRepeats)
        ensures
            measured.timing.wall_time_us == wall.wall_time_us,
            measured.timing.wall_time_ms == wall.wall_time_ms,
            measured.timing.repeat_wall_time_us matches Some(times) && times@ == micros_of(
                self.repeats(),
            ),
            measured.latencies.samples() == samples_of(self.repeats()),
    {
        proof {
            use_type_invariant(&self);
        }
        let timing = Timing {
            wall_time_us: wall.wall_time_us,
            wall_time_ms: wall.wall_time_ms,
            repeat_wall_time_us: Some(self.wall_times_us),
        };
        MeasuredRepeats { timing, latencies: self.latencies }
    }
}

/// A repeat that fits in a sample is recorded as it is: each wall time below the largest `u64`
/// equals its sample.
pub proof fn law_samples_are_wall_times(nanos: Seq<nat>, i: int)
    requires
        0 <= i < nanos.len(),
        nanos[i] / 1000 <= u64::MAX,
    ensures
        samples_of(nanos)[i] == micros_of(nanos)[i],
{
}

/// The bytes and the latencies of random reads.
pub struct RandomTally {
    pub bytes: u64,
    pub latencies: Latencies,
}

impl RandomTally {
    /// Nothing read.
    pub fn new() -> (made: Result<RandomTally, MeasureError>)
        ensures
            made matches Ok(tally) && tally.bytes == 0 && tally.latencies.samples() == Seq::<
                u64,
            >::empty(),
    {
        match Latencies::new() {
            Ok(latencies) => Ok(RandomTally { bytes: 0, latencies }),
            Err(error) => Err(error),
        }
    }

    /// Takes one read. The bytes stop at the largest `u64`.
    pub fn record(self, elapsed: Duration, read: u64) -> (taken: Result<RandomTally, MeasureError>)
        ensures
            taken matches Ok(after) && after.bytes == capped_sum(self.bytes, read)
                && after.latencies.samples() == self.latencies.samples().push(
                sample_of(duration_nanos(elapsed)),
            ),
    {
        let bytes: u64 = self.bytes.saturating_add(read);
        match self.latencies.record(elapsed) {
            Ok(latencies) => Ok(RandomTally { bytes, latencies }),
            Err(error) => Err(error),
        }
    }

    /// Ends the reads: their bytes, and their latencies where there was a read.
    pub fn finish(self) -> (done: (u64, Option<Latencies>))
        ensures
            done.0 == self.bytes,
            done.1 == if self.latencies.samples().len() > 0 {
                Some(self.latencies)
            } else {
                None
            },
    {
        if self.latencies.any() {
            (self.bytes, Some(self.latencies))
        } else {
            (self.bytes, None)
        }
    }
}

/// The bound below which a row is drawn: the number of rows, at least one.
pub open spec fn row_bound(row_count: u64) -> u64 {
    if row_count == 0 {
        1
    } else {
        row_count
    }
}

/// Picks the rows of a random read.
pub struct RowPicker {
    generator: StdRng,
    row_count: u64,
}

impl RowPicker {
    /// How many rows there are to pick from.
    pub closed spec fn row_count(self) -> u64 {
        self.row_count
    }

    /// The state of the generator.
    pub closed spec fn state(self) -> GeneratorState {
        generator_state(self.generator)
    }

    /// A picker for a seed.
    pub fn new(seed: u64, row_count: u64) -> (picker: RowPicker)
        ensures
            picker.row_count() == row_count,
            picker.state() == (GeneratorState { key: seed_key(seed), position: 0 }),
    {
        RowPicker { generator: seeded_generator(seed), row_count }
    }

    /// The next row: one of the rows, or the first where there are none. The seed and the rows
    /// picked before decide which.
    pub fn next_row(&mut self) -> (row: u64)
        ensures
            row == number_drawn(old(self).state(), row_bound(old(self).row_count())),
            row < row_bound(old(self).row_count()),
            final(self).state() == (GeneratorState {
                key: old(self).state().key,
                position: position_after(old(self).state(), row_bound(old(self).row_count())),
            }),
            final(self).row_count() == old(self).row_count(),
    {
        let bound: u64 = if self.row_count == 0 {
            1
        } else {
            self.row_count
        };
        draw_below(&mut self.generator, bound)
    }
}

} // verus!
