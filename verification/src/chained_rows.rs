//! Reading files one after the other.
use vstd::prelude::*;

use crate::readers::{limited, min_nat, take_rows};

verus! {

/// Reads files one after the other, up to a limit where there is one.
#[derive(Debug, Clone, Copy, PartialEq, Eq, Structural)]
pub struct ChainState {
    /// How many files there are.
    pub files: usize,
    /// The file that is read.
    pub current: usize,
    /// How many rows are still to be handed out; without a limit all are.
    pub remaining_rows: Option<u64>,
}

/// What happens to a reader of files in turn.
#[derive(Debug, Clone, Copy, PartialEq, Eq, Structural)]
pub enum ChainEvent {
    /// The next batch is asked for.
    Next,
    /// The file has no more batches.
    EndOfFile,
    /// A batch of some rows was read.
    Batch { rows: usize },
    /// A batch could not be read.
    BatchFailed,
}

/// What a reader of files in turn does.
#[derive(Debug, Clone, Copy, PartialEq, Eq, Structural)]
pub enum ChainAction {
    /// Read a batch of the file at a position.
    Read { file: usize },
    /// Hand out the first rows of the batch.
    Hand { rows: usize },
    /// Hand out the error that came.
    Fail,
    /// There is nothing more to hand out.
    Done,
}

/// Which file is read: the current one, while there is one.
pub open spec fn chain_read(s: ChainState) -> ChainAction {
    if s.current < s.files {
        ChainAction::Read { file: s.current }
    } else {
        ChainAction::Done
    }
}

/// The next state and action of a reader of files in turn.
pub open spec fn chain_step(s: ChainState, event: ChainEvent) -> (ChainState, ChainAction) {
    match event {
        ChainEvent::Next => if s.remaining_rows == Some(0u64) {
            (s, ChainAction::Done)
        } else {
            (s, chain_read(s))
        },
        ChainEvent::EndOfFile => {
            let after = ChainState { current: (s.current + 1) as usize, ..s };
            (after, chain_read(after))
        },
        ChainEvent::Batch { rows } => {
            let (take, remaining_rows) = limited(s.remaining_rows, rows);
            (ChainState { remaining_rows, ..s }, ChainAction::Hand { rows: take as usize })
        },
        ChainEvent::BatchFailed => (s, ChainAction::Fail),
    }
}

/// The state of a reader that has not read anything.
pub open spec fn chain_fresh(files: usize, limit_rows: Option<u64>) -> ChainState {
    ChainState { files, current: 0, remaining_rows: limit_rows }
}

impl ChainState {
    /// A reader of some files.
    pub fn new(files: usize, limit_rows: Option<u64>) -> (s: ChainState)
        ensures
            s == chain_fresh(files, limit_rows),
    {
        ChainState { files, current: 0, remaining_rows: limit_rows }
    }

    /// What to do next.
    pub fn step(&mut self, event: ChainEvent) -> (action: ChainAction)
        requires
            event is EndOfFile ==> old(self).current < old(self).files,
        ensures
            (*final(self), action) == chain_step(*old(self), event),
    {
        match event {
            ChainEvent::Next => {
                if let Some(0) = self.remaining_rows {
                    return ChainAction::Done;
                }
            },
            ChainEvent::EndOfFile => {
                self.current = self.current + 1;
            },
            ChainEvent::Batch { rows } => {
                let rows: usize = take_rows(&mut self.remaining_rows, rows);
                return ChainAction::Hand { rows };
            },
            ChainEvent::BatchFailed => {
                return ChainAction::Fail;
            },
        }
        if self.current < self.files {
            ChainAction::Read { file: self.current }
        } else {
            ChainAction::Done
        }
    }
}

/// Whether there are no more files, and no more rows in a batch, than can be counted.
pub open spec fn files_count<T>(files: Seq<Seq<Seq<T>>>) -> bool {
    &&& files.len() <= usize::MAX
    &&& forall|f: int, b: int|
        0 <= f < files.len() && 0 <= b < files[f].len() ==> (#[trigger] files[f][b]).len()
            <= usize::MAX
}

/// The batches of a file, or none where there is no such file.
pub open spec fn file_at<T>(files: Seq<Seq<Seq<T>>>, at: int) -> Seq<Seq<T>> {
    if 0 <= at < files.len() {
        files[at]
    } else {
        Seq::empty()
    }
}

/// The batches that a reader hands out from an action on, where the files hold the batches given
/// and all can be read, and `rest` are those of the current file that are still to come. None
/// where the reader does not come to an end in `steps` steps.
pub open spec fn read_on<T>(
    files: Seq<Seq<Seq<T>>>,
    s: ChainState,
    rest: Seq<Seq<T>>,
    action: ChainAction,
    steps: nat,
) -> Option<Seq<Seq<T>>>
    decreases steps,
{
    if steps == 0 {
        None
    } else {
        let left = (steps - 1) as nat;
        match action {
            ChainAction::Done => Some(Seq::empty()),
            ChainAction::Read { file } => if rest.len() == 0 {
                let (after, next) = chain_step(s, ChainEvent::EndOfFile);
                read_on(files, after, file_at(files, after.current as int), next, left)
            } else {
                let batch = rest[0];
                let (read, hand) = chain_step(s, ChainEvent::Batch { rows: batch.len() as usize });
                let (after, next) = chain_step(read, ChainEvent::Next);
                match (hand, read_on(files, after, rest.drop_first(), next, left)) {
                    (ChainAction::Hand { rows }, Some(later)) => Some(
                        seq![batch.take(rows as int)] + later,
                    ),
                    _ => None,
                }
            },
            _ => None,
        }
    }
}

/// The batches that a new reader of files hands out until it comes to an end.
pub open spec fn read_in_turn<T>(
    files: Seq<Seq<Seq<T>>>,
    limit_rows: Option<u64>,
    steps: nat,
) -> Option<Seq<Seq<T>>> {
    let (s, action) = chain_step(chain_fresh(files.len() as usize, limit_rows), ChainEvent::Next);
    read_on(files, s, file_at(files, 0), action, steps)
}

/// The first rows up to a limit; without one all rows.
pub open spec fn first_rows<T>(rows: Seq<T>, limit_rows: Option<u64>) -> Seq<T> {
    match limit_rows {
        Some(limit) => rows.take(min_nat(limit as nat, rows.len()) as int),
        None => rows,
    }
}

proof fn lemma_reading<T>(files: Seq<Seq<Seq<T>>>, s: ChainState, rest: Seq<Seq<T>>) -> (steps: nat)
    requires
        files_count(files),
        forall|b: int| 0 <= b < rest.len() ==> (#[trigger] rest[b]).len() <= usize::MAX,
        s.files == files.len(),
        s.current < s.files,
        s.remaining_rows != Some(0u64),
    ensures
        ({
            let action = ChainAction::Read { file: s.current };
            let pending = rest + files.skip(s.current + 1).flatten();
            read_on(files, s, rest, action, steps) matches Some(out) && out.flatten() == first_rows(
                pending.flatten(),
                s.remaining_rows,
            )
        }),
    decreases s.files - s.current, rest.len(),
{
    let action = ChainAction::Read { file: s.current };
    let behind = files.skip(s.current + 1);
    let pending = rest + behind.flatten();
    let none = Seq::<Seq<T>>::empty();
    if rest.len() == 0 {
        let (after, next) = chain_step(s, ChainEvent::EndOfFile);
        assert(pending =~= behind.flatten());
        if after.current < after.files {
            assert(behind.first() == files[after.current as int]);
            assert(behind.drop_first() =~= files.skip(after.current + 1));
            lemma_reading(files, after, files[after.current as int]) + 1
        } else {
            assert(behind.flatten() =~= none);
            assert(pending.flatten() =~= Seq::<T>::empty());
            assert(read_on(files, after, none, next, 1) == Some(none));
            assert(none.flatten() =~= first_rows(pending.flatten(), s.remaining_rows));
            2
        }
    } else {
        let batch = rest[0];
        let later = rest.drop_first();
        let (read, hand) = chain_step(s, ChainEvent::Batch { rows: batch.len() as usize });
        let (after, next) = chain_step(read, ChainEvent::Next);
        let taken = batch.take(hand->rows as int);
        assert(pending.first() == batch);
        assert(pending.drop_first() =~= later + behind.flatten());
        let after_batch = pending.drop_first().flatten();
        assert(pending.flatten() == batch + after_batch);
        assert forall|b: int| 0 <= b < later.len() implies (#[trigger] later[b]).len()
            <= usize::MAX by {
            assert(later[b] == rest[b + 1]);
        }
        let steps = if read.remaining_rows == Some(0u64) {
            assert(read_on(files, after, later, next, 1) == Some(none));
            assert(none.flatten() =~= first_rows(after_batch, read.remaining_rows));
            1
        } else {
            lemma_reading(files, after, later)
        };
        let out = read_on(files, after, later, next, steps)->0;
        let all = seq![taken] + out;
        assert(read_on(files, s, rest, action, (steps + 1) as nat) == Some(all));
        assert(all.drop_first() =~= out);
        assert(all.flatten() == taken + out.flatten());
        assert(taken + first_rows(after_batch, read.remaining_rows) =~= first_rows(
            pending.flatten(),
            s.remaining_rows,
        ));
        steps + 1
    }
}

proof fn lemma_more_steps<T>(
    files: Seq<Seq<Seq<T>>>,
    s: ChainState,
    rest: Seq<Seq<T>>,
    action: ChainAction,
    steps: nat,
    more: nat,
)
    requires
        read_on(files, s, rest, action, steps) is Some,
        steps <= more,
    ensures
        read_on(files, s, rest, action, more) == read_on(files, s, rest, action, steps),
    decreases steps,
{
    let (left, more_left) = ((steps - 1) as nat, (more - 1) as nat);
    if action is Read {
        if rest.len() == 0 {
            let (after, next) = chain_step(s, ChainEvent::EndOfFile);
            let batches = file_at(files, after.current as int);
            lemma_more_steps(files, after, batches, next, left, more_left);
        } else {
            let (read, hand) = chain_step(s, ChainEvent::Batch { rows: rest[0].len() as usize });
            let (after, next) = chain_step(read, ChainEvent::Next);
            lemma_more_steps(files, after, rest.drop_first(), next, left, more_left);
        }
    }
}

/// A reader of files in turn comes to an end. Until then it has handed out the rows of the first
/// file, then of the second and so on: all of them, or the first ones up to the limit.
pub proof fn law_files_are_read_in_turn<T>(files: Seq<Seq<Seq<T>>>, limit_rows: Option<u64>)
    requires
        files_count(files),
    ensures
        exists|steps: nat| (#[trigger] read_in_turn(files, limit_rows, steps)) is Some,
        forall|steps: nat|
            (#[trigger] read_in_turn(files, limit_rows, steps)) matches Some(out) ==> out.flatten()
                == first_rows(files.flatten().flatten(), limit_rows),
{
    let all = files.flatten().flatten();
    let wanted = first_rows(all, limit_rows);
    let none = Seq::<Seq<T>>::empty();
    let (s, action) = chain_step(chain_fresh(files.len() as usize, limit_rows), ChainEvent::Next);
    let enough: nat = if limit_rows == Some(0u64) || files.len() == 0 {
        assert(none.flatten() =~= wanted);
        1
    } else {
        let steps = lemma_reading(files, s, files[0]);
        assert(files.skip(1) =~= files.drop_first());
        assert(files.flatten() == files[0] + files.skip(1).flatten());
        steps
    };
    let out = read_in_turn(files, limit_rows, enough);
    assert(out is Some && out->0.flatten() == wanted);
    assert forall|steps: nat| (#[trigger] read_in_turn(files, limit_rows, steps)) is Some implies read_in_turn(
        files,
        limit_rows,
        steps,
    ) == out by {
        let batches = file_at(files, 0);
        if steps <= enough {
            lemma_more_steps(files, s, batches, action, steps, enough);
        } else {
            lemma_more_steps(files, s, batches, action, enough, steps);
        }
    }
}

} // verus!
