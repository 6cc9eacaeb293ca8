//! Which rows the readers of the input datasets hand out.
use vstd::prelude::*;

use crate::csv_rows::rows_in;
use crate::records::{extension_is, has_extension};
use crate::workload::DatasetName;
use vstd::utf8::encode_utf8;

verus! {

/// How a dataset is read.
#[derive(Debug)]
pub struct DatasetReadOptions {
    pub batch_size: usize,
    pub limit_rows: Option<u64>,
    pub row_id_offset: u64,
}

impl Default for DatasetReadOptions {
    fn default() -> (options: DatasetReadOptions)
        ensures
            options.batch_size == 8192,
            options.limit_rows is None,
            options.row_id_offset == 0,
    {
        DatasetReadOptions { batch_size: 8192, limit_rows: None, row_id_offset: 0 }
    }
}

/// The ways to read an input.
#[derive(Debug, Clone, Copy, PartialEq, Eq, Structural)]
pub enum Adapter {
    /// The first Parquet file below the `data` directory.
    LeRobot,
    /// All Parquet files of a directory.
    ParquetDir,
    /// All Parquet files of a directory, with synthetic blobs.
    OpenVid,
    /// Archives of images with captions.
    WebDataset,
}

/// How a dataset is read; an unknown one cannot be.
pub fn adapter_for(name: DatasetName) -> (adapter: Option<Adapter>)
    ensures
        adapter == match name {
            DatasetName::LeRobotPushTImage => Some(Adapter::LeRobot),
            DatasetName::LeRobotPushT => Some(Adapter::LeRobot),
            DatasetName::FineWeb => Some(Adapter::ParquetDir),
            DatasetName::OpenVid => Some(Adapter::OpenVid),
            DatasetName::Laion10m => Some(Adapter::WebDataset),
            DatasetName::Unknown => None,
        },
{
    match name {
        DatasetName::LeRobotPushTImage => Some(Adapter::LeRobot),
        DatasetName::LeRobotPushT => Some(Adapter::LeRobot),
        DatasetName::FineWeb => Some(Adapter::ParquetDir),
        DatasetName::OpenVid => Some(Adapter::OpenVid),
        DatasetName::Laion10m => Some(Adapter::WebDataset),
        DatasetName::Unknown => None,
    }
}

/// Whether a file is a Parquet file, by its name.
pub fn is_parquet_file(name: &Vec<u8>) -> (yes: bool)
    ensures
        yes == extension_is(name@, "parquet"@),
{
    has_extension(name, "parquet")
}

/// Whether a file name ends in `ending`.
pub open spec fn name_ends_with(name: Seq<u8>, ending: Seq<char>) -> bool {
    let e = encode_utf8(ending);
    name.len() >= e.len() && name.skip(name.len() - e.len()) == e
}

fn ends_with_bytes(name: &Vec<u8>, ending: &str) -> (yes: bool)
    ensures
        yes == name_ends_with(name@, ending@),
{
    let e = ending.as_bytes();
    if name.len() < e.len() {
        return false;
    }
    let start: usize = name.len() - e.len();
    let ghost rest = name@.skip(start as int);
    let mut i: usize = 0;
    while i < e.len()
        invariant
            i <= e.len(),
            start + e.len() == name.len(),
            e@ == encode_utf8(ending@),
            rest == name@.skip(start as int),
            forall|j: int| 0 <= j < i ==> rest[j] == e@[j],
        decreases e.len() - i,
    {
        assert(rest[i as int] == name@[start + i]);
        if name[start + i] != e[i] {
            return false;
        }
        i += 1;
    }
    assert(rest =~= e@);
    true
}

/// Whether a file is an archive of a web dataset, by its name.
pub fn is_web_shard(name: &Vec<u8>) -> (yes: bool)
    ensures
        yes == (name_ends_with(name@, ".tar"@) || name_ends_with(name@, ".tar.gz"@)
            || name_ends_with(name@, ".tgz"@)),
{
    ends_with_bytes(name, ".tar") || ends_with_bytes(name, ".tar.gz") || ends_with_bytes(
        name,
        ".tgz",
    )
}

/// Whether an archive is compressed, by its name.
pub fn is_compressed_shard(name: &Vec<u8>) -> (yes: bool)
    ensures
        yes == (extension_is(name@, "gz"@) || extension_is(name@, "tgz"@)),
{
    has_extension(name, "gz") || has_extension(name, "tgz")
}

// ---------------------------------------------------------------------------
// Limits.
// ---------------------------------------------------------------------------

/// The smaller of two numbers.
pub open spec fn min_nat(a: nat, b: nat) -> nat {
    if a <= b {
        a
    } else {
        b
    }
}

/// How many rows of a batch are taken, and what remains of the limit.
pub open spec fn limited(remaining: Option<u64>, rows: usize) -> (nat, Option<u64>) {
    match remaining {
        Some(r) => {
            let take = min_nat(r as nat, rows as nat);
            (take, Some((r - take) as u64))
        },
        None => (rows as nat, None),
    }
}

/// Takes rows of a batch within a limit.
pub fn take_rows(remaining: &mut Option<u64>, rows: usize) -> (take: usize)
    ensures
        (take as nat, *final(remaining)) == limited(*old(remaining), rows),
        take <= rows,
{
    match *remaining {
        Some(r) => {
            let take: usize = if r < rows as u64 {
                r as usize
            } else {
                rows
            };
            *remaining = Some(r - take as u64);
            take
        },
        None => rows,
    }
}

/// What remains of a limit after some batches, and the rows that were taken of them.
pub open spec fn limited_run<T>(remaining: Option<u64>, batches: Seq<Seq<T>>) -> (
    Option<u64>,
    Seq<T>,
)
    decreases batches.len(),
{
    if batches.len() == 0 {
        (remaining, Seq::empty())
    } else {
        let (before, taken) = limited_run(remaining, batches.drop_last());
        let (take, after) = limited(before, batches.last().len() as usize);
        (after, taken + batches.last().take(take as int))
    }
}

/// Batches within a limit give the first rows of all, as many as the limit allows; without a limit
/// they give all rows.
pub proof fn law_first_rows_are_taken<T>(remaining: Option<u64>, batches: Seq<Seq<T>>)
    requires
        forall|i: int| 0 <= i < batches.len() ==> (#[trigger] batches[i]).len() <= usize::MAX,
    ensures
        limited_run(remaining, batches).1 == match remaining {
            Some(r) => rows_in(batches).take(min_nat(r as nat, rows_in(batches).len()) as int),
            None => rows_in(batches),
        },
        limited_run(remaining, batches).0 == match remaining {
            Some(r) => Some((r - min_nat(r as nat, rows_in(batches).len())) as u64),
            None => None,
        },
    decreases batches.len(),
{
    let all = rows_in(batches);
    let taken = limited_run(remaining, batches).1;
    if batches.len() > 0 {
        let earlier = batches.drop_last();
        let batch = batches.last();
        assert(batches[batches.len() - 1] == batch);
        assert forall|i: int| 0 <= i < earlier.len() implies (#[trigger] earlier[i]).len()
            <= usize::MAX by {
            assert(earlier[i] == batches[i]);
        }
        law_first_rows_are_taken(remaining, earlier);
        assert(all == rows_in(earlier) + batch);
    }
    match remaining {
        Some(r) => assert(taken =~= all.take(min_nat(r as nat, all.len()) as int)),
        None => assert(taken =~= all),
    }
}

/// Reads the files of a directory over and over until a number of rows is reached.
#[derive(Debug, Clone, Copy, PartialEq, Eq, Structural)]
pub struct RepeatState {
    /// How many files there are.
    pub files: usize,
    /// How many rows are still to be handed out.
    pub remaining_rows: u64,
    /// The file to open next.
    pub next_file_idx: usize,
    /// Whether a file is open.
    pub open: bool,
    /// Whether the open file had a batch.
    pub current_file_had_rows: bool,
    /// How many files in a row had no batch.
    pub empty_file_steps: usize,
}

/// What happens to a repeating reader.
#[derive(Debug, Clone, Copy, PartialEq, Eq, Structural)]
pub enum RepeatEvent {
    /// The next batch is asked for.
    Next,
    /// The file was opened.
    Opened,
    /// The file could not be opened.
    OpenFailed,
    /// The open file has no more batches.
    EndOfFile,
    /// A batch of some rows was read.
    Batch { rows: usize },
    /// A batch could not be read.
    BatchFailed,
}

/// What a repeating reader does.
#[derive(Debug, Clone, Copy, PartialEq, Eq, Structural)]
pub enum RepeatAction {
    /// Open the file at a position.
    Open { file: usize },
    /// Read a batch of the open file.
    Read,
    /// Hand out the first rows of the batch.
    Hand { rows: usize },
    /// Hand out the error that came.
    Fail,
    /// Report that there are no files.
    NoFiles,
    /// There is nothing more to hand out.
    Done,
}

/// The state of a reader that has not read anything.
pub open spec fn repeat_fresh(files: usize, limit_rows: u64) -> RepeatState {
    RepeatState {
        files,
        remaining_rows: limit_rows,
        next_file_idx: 0,
        open: false,
        current_file_had_rows: false,
        empty_file_steps: 0,
    }
}

/// What a reader does when no file is open.
pub open spec fn repeat_open(s: RepeatState) -> (RepeatState, RepeatAction) {
    if s.files == 0 {
        (s, RepeatAction::NoFiles)
    } else if s.remaining_rows == 0 {
        (s, RepeatAction::Done)
    } else {
        (
            RepeatState {
                next_file_idx: if s.next_file_idx + 1 >= s.files {
                    0
                } else {
                    (s.next_file_idx + 1) as usize
                },
                ..s
            },
            RepeatAction::Open { file: s.next_file_idx },
        )
    }
}

/// The next state and action of a repeating reader. The files are read in turn, the first one
/// again after the last. It stops when the limit is reached, or when no file had a batch in a
/// whole round.
pub open spec fn repeat_step(s: RepeatState, event: RepeatEvent) -> (RepeatState, RepeatAction) {
    match event {
        RepeatEvent::Next => if s.remaining_rows == 0 {
            (s, RepeatAction::Done)
        } else if s.open {
            (s, RepeatAction::Read)
        } else {
            repeat_open(s)
        },
        RepeatEvent::Opened => (
            RepeatState { open: true, current_file_had_rows: false, ..s },
            RepeatAction::Read,
        ),
        RepeatEvent::OpenFailed => (s, RepeatAction::Fail),
        RepeatEvent::EndOfFile => {
            let steps = if s.current_file_had_rows {
                0
            } else {
                (s.empty_file_steps + 1) as usize
            };
            let closed = RepeatState { open: false, empty_file_steps: steps, ..s };
            if !s.current_file_had_rows && steps >= s.files {
                (closed, RepeatAction::Done)
            } else {
                repeat_open(closed)
            }
        },
        RepeatEvent::Batch { rows } => {
            let take = min_nat(s.remaining_rows as nat, rows as nat);
            (
                RepeatState {
                    remaining_rows: (s.remaining_rows - take) as u64,
                    empty_file_steps: 0,
                    current_file_had_rows: true,
                    ..s
                },
                RepeatAction::Hand { rows: take as usize },
            )
        },
        RepeatEvent::BatchFailed => (
            RepeatState { empty_file_steps: 0, current_file_had_rows: true, ..s },
            RepeatAction::Fail,
        ),
    }
}

impl RepeatState {
    /// What every state fulfils.
    pub open spec fn well_formed(self) -> bool {
        &&& self.files > 0 ==> self.next_file_idx < self.files
        &&& self.current_file_had_rows ==> self.empty_file_steps == 0
    }

    /// A reader of some files that hands out at most `limit_rows` rows.
    pub fn new(files: usize, limit_rows: u64) -> (s: RepeatState)
        ensures
            s.well_formed(),
            s == repeat_fresh(files, limit_rows),
    {
        RepeatState {
            files,
            remaining_rows: limit_rows,
            next_file_idx: 0,
            open: false,
            current_file_had_rows: false,
            empty_file_steps: 0,
        }
    }

    fn open_next_file(&mut self) -> (action: RepeatAction)
        requires
            old(self).well_formed(),
        ensures
            (*final(self), action) == repeat_open(*old(self)),
            final(self).well_formed(),
    {
        if self.files == 0 {
            return RepeatAction::NoFiles;
        }
        if self.remaining_rows == 0 {
            return RepeatAction::Done;
        }
        let file: usize = self.next_file_idx;
        self.next_file_idx = if file + 1 >= self.files {
            0
        } else {
            file + 1
        };
        RepeatAction::Open { file }
    }

    /// What to do next.
    pub fn step(&mut self, event: RepeatEvent) -> (action: RepeatAction)
        requires
            old(self).well_formed(),
            event is EndOfFile ==> old(self).empty_file_steps < usize::MAX,
        ensures
            (*final(self), action) == repeat_step(*old(self), event),
            final(self).well_formed(),
    {
        match event {
            RepeatEvent::Next => {
                if self.remaining_rows == 0 {
                    RepeatAction::Done
                } else if self.open {
                    RepeatAction::Read
                } else {
                    self.open_next_file()
                }
            },
            RepeatEvent::Opened => {
                self.open = true;
                self.current_file_had_rows = false;
                RepeatAction::Read
            },
            RepeatEvent::OpenFailed => RepeatAction::Fail,
            RepeatEvent::EndOfFile => {
                self.open = false;
                if self.current_file_had_rows {
                    self.empty_file_steps = 0;
                } else {
                    self.empty_file_steps = self.empty_file_steps + 1;
                    if self.empty_file_steps >= self.files {
                        return RepeatAction::Done;
                    }
                }
                self.open_next_file()
            },
            RepeatEvent::Batch { rows } => {
                let rest: u64 = self.remaining_rows;
                let take: usize = if rest < rows as u64 {
                    rest as usize
                } else {
                    rows
                };
                self.remaining_rows = rest - take as u64;
                self.empty_file_steps = 0;
                self.current_file_had_rows = true;
                RepeatAction::Hand { rows: take }
            },
            RepeatEvent::BatchFailed => {
                self.empty_file_steps = 0;
                self.current_file_had_rows = true;
                RepeatAction::Fail
            },
        }
    }
}

/// The state after some events, and how many rows were handed out.
pub open spec fn repeat_run(s: RepeatState, events: Seq<RepeatEvent>) -> (RepeatState, nat)
    decreases events.len(),
{
    if events.len() == 0 {
        (s, 0)
    } else {
        let (before, handed) = repeat_run(s, events.drop_last());
        let (after, action) = repeat_step(before, events.last());
        (
            after,
            handed + match action {
                RepeatAction::Hand { rows } => rows as nat,
                _ => 0,
            },
        )
    }
}

/// Whatever happens, the rows handed out and the rows still to come add up to the limit; so the
/// limit is never exceeded.
pub proof fn law_rows_add_up(s: RepeatState, events: Seq<RepeatEvent>)
    ensures
        repeat_run(s, events).1 + repeat_run(s, events).0.remaining_rows == s.remaining_rows,
        repeat_run(s, events).1 <= s.remaining_rows,
    decreases events.len(),
{
    if events.len() > 0 {
        law_rows_add_up(s, events.drop_last());
    }
}

/// A reader that has files stops only when the limit is reached or after a whole round of files
/// without a batch.
pub proof fn law_stops_only_when_done(s: RepeatState, event: RepeatEvent)
    requires
        s.well_formed(),
        s.files > 0,
        repeat_step(s, event).1 == RepeatAction::Done,
    ensures
        repeat_step(s, event).0.remaining_rows == 0 || repeat_step(s, event).0.empty_file_steps
            >= s.files,
{
}

} // verus!
