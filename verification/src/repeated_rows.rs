//! The rows that come out of reading files over and over.
use vstd::arithmetic::div_mod::{lemma_mod_sub_multiples_vanish, lemma_small_mod};
use vstd::prelude::*;

use crate::readers::{repeat_fresh, repeat_step, RepeatAction, RepeatEvent, RepeatState};

verus! {

/// Whether batches have rows, and no more than can be counted.
pub open spec fn batches_fit<T>(batches: Seq<Seq<T>>) -> bool {
    forall|i: int| 0 <= i < batches.len() ==> 0 < (#[trigger] batches[i]).len() <= usize::MAX
}

/// Whether there are files, no more than can be counted, whose batches all have rows.
pub open spec fn files_fit<T>(files: Seq<Seq<Seq<T>>>) -> bool {
    &&& 0 < files.len() <= usize::MAX
    &&& forall|f: int| 0 <= f < files.len() ==> batches_fit(#[trigger] files[f])
}

/// The batches that a reader hands out from an action on, where the files hold the batches given
/// and all can be read, and `rest` are those of the open file that are still to come. None where
/// the reader does not come to an end in `steps` steps.
pub open spec fn read_out<T>(
    files: Seq<Seq<Seq<T>>>,
    s: RepeatState,
    rest: Seq<Seq<T>>,
    action: RepeatAction,
    steps: nat,
) -> Option<Seq<Seq<T>>>
    decreases steps,
{
    if steps == 0 {
        None
    } else {
        let left = (steps - 1) as nat;
        match action {
            RepeatAction::Done => Some(Seq::empty()),
            RepeatAction::Open { file } => {
                let (after, next) = repeat_step(s, RepeatEvent::Opened);
                read_out(files, after, files[file as int], next, left)
            },
            RepeatAction::Read => if rest.len() == 0 {
                let (after, next) = repeat_step(s, RepeatEvent::EndOfFile);
                read_out(files, after, rest, next, left)
            } else {
                let batch = rest[0];
                let (read, hand) = repeat_step(
                    s,
                    RepeatEvent::Batch { rows: batch.len() as usize },
                );
                let (after, next) = repeat_step(read, RepeatEvent::Next);
                match (hand, read_out(files, after, rest.drop_first(), next, left)) {
                    (RepeatAction::Hand { rows }, Some(later)) => Some(
                        seq![batch.take(rows as int)] + later,
                    ),
                    _ => None,
                }
            },
            _ => None,
        }
    }
}

/// The batches that a new reader of files hands out until it comes to an end.
pub open spec fn read_repeatedly<T>(
    files: Seq<Seq<Seq<T>>>,
    limit_rows: u64,
    steps: nat,
) -> Option<Seq<Seq<T>>> {
    let (s, action) = repeat_step(
        repeat_fresh(files.len() as usize, limit_rows),
        RepeatEvent::Next,
    );
    read_out(files, s, Seq::empty(), action, steps)
}

/// The first `n` rows of some rows repeated without end.
pub open spec fn cycled<T>(rows: Seq<T>, n: nat) -> Seq<T> {
    if rows.len() == 0 {
        Seq::empty()
    } else {
        Seq::new(n, |i: int| rows[i % (rows.len() as int)])
    }
}

/// The first `n` rows of `tail` followed by `rows` repeated without end.
spec fn cycled_after<T>(tail: Seq<T>, rows: Seq<T>, n: nat) -> Seq<T> {
    Seq::new(
        n,
        |i: int|
            if i < tail.len() {
                tail[i]
            } else {
                rows[(i - tail.len()) % (rows.len() as int)]
            },
    )
}

/// How many files there are from one up to another, going on with the first after the last.
spec fn distance(from: int, to: int, files: int) -> int {
    if to >= from {
        to - from
    } else {
        to + files - from
    }
}

proof fn lemma_goes_round<T>(rows: Seq<T>, n: nat)
    requires
        rows.len() > 0,
    ensures
        cycled_after(Seq::empty(), rows, n) == cycled(rows, n),
        cycled_after(rows, rows, n) == cycled(rows, n),
{
    assert(cycled_after(Seq::empty(), rows, n) =~= cycled(rows, n));
    assert forall|i: int| 0 <= i < n implies cycled_after(rows, rows, n)[i] == cycled(
        rows,
        n,
    )[i] by {
        if i < rows.len() {
            lemma_small_mod(i as nat, rows.len());
        } else {
            lemma_mod_sub_multiples_vanish(i, rows.len() as int);
            assert(-(rows.len() as int) + i == i - rows.len());
        }
    }
    assert(cycled_after(rows, rows, n) =~= cycled(rows, n));
}

proof fn lemma_first_batch<T>(pending: Seq<Seq<T>>, rows: Seq<T>, n: nat)
    requires
        pending.len() > 0,
    ensures
        ({
            let size = pending[0].len();
            let taken = if n < size {
                n
            } else {
                size
            };
            cycled_after(pending.flatten(), rows, n) == pending[0].take(taken as int)
                + cycled_after(pending.drop_first().flatten(), rows, (n - taken) as nat)
        }),
{
    let size = pending[0].len();
    let taken = if n < size {
        n
    } else {
        size
    };
    let later = pending.drop_first().flatten();
    assert(pending.flatten() == pending[0] + later);
    assert(cycled_after(pending.flatten(), rows, n) =~= pending[0].take(taken as int)
        + cycled_after(later, rows, (n - taken) as nat));
}

/// What is handed out: these rows, in batches that all have rows.
spec fn hands_out<T>(out: Option<Seq<Seq<T>>>, rows: Seq<T>) -> bool {
    &&& out is Some
    &&& out->0.flatten() == rows
    &&& forall|i: int| 0 <= i < out->0.len() ==> (#[trigger] out->0[i]).len() > 0
}

proof fn lemma_hands_out_more<T>(batch: Seq<T>, later: Seq<Seq<T>>, rows: Seq<T>)
    requires
        batch.len() > 0,
        hands_out(Some(later), rows),
    ensures
        hands_out(Some(seq![batch] + later), batch + rows),
{
    let all = seq![batch] + later;
    assert(all.drop_first() =~= later);
    assert(all.first() == batch);
    assert forall|i: int| 0 <= i < all.len() implies (#[trigger] all[i]).len() > 0 by {
        if i > 0 {
            assert(all[i] == later[i - 1]);
        }
    }
}

/// With a row in file `full`, and file `at - 1` open.
proof fn lemma_reading<T>(
    files: Seq<Seq<Seq<T>>>,
    s: RepeatState,
    rest: Seq<Seq<T>>,
    at: int,
    full: int,
) -> (steps: nat)
    requires
        files_fit(files),
        batches_fit(rest),
        s.files == files.len(),
        s.open,
        s.remaining_rows > 0,
        1 <= at <= files.len(),
        s.next_file_idx == if at == files.len() {
            0
        } else {
            at
        },
        0 <= full < files.len(),
        files[full].len() > 0,
        files.flatten().flatten().len() > 0,
        !s.current_file_had_rows ==> rest == files[at - 1] && s.empty_file_steps + distance(
            at - 1,
            full,
            files.len() as int,
        ) < files.len(),
    ensures
        hands_out(
            read_out(files, s, rest, RepeatAction::Read, steps),
            cycled_after(
                (rest + files.skip(at).flatten()).flatten(),
                files.flatten().flatten(),
                s.remaining_rows as nat,
            ),
        ),
    decreases
            s.remaining_rows,
            if rest.len() > 0 {
                0
            } else if s.current_file_had_rows {
                files.len() as int + 1
            } else {
                distance(at - 1, full, files.len() as int)
            },
{
    let all = files.flatten().flatten();
    let pending = rest + files.skip(at).flatten();
    let n = s.remaining_rows as nat;
    if rest.len() > 0 {
        let batch = rest[0];
        let (read, hand) = repeat_step(s, RepeatEvent::Batch { rows: batch.len() as usize });
        let taken = (n - read.remaining_rows) as nat;
        let later = rest.drop_first();
        assert(pending[0] == batch);
        assert(pending.drop_first() =~= later + files.skip(at).flatten());
        lemma_first_batch(pending, all, n);
        assert(batches_fit(later)) by {
            assert forall|i: int| 0 <= i < later.len() implies 0 < (#[trigger] later[i]).len()
                <= usize::MAX by {
                assert(later[i] == rest[i + 1]);
            }
        }
        if read.remaining_rows == 0 {
            let out = read_out(files, read, later, RepeatAction::Done, 1);
            assert(out == Some(Seq::<Seq<T>>::empty()));
            assert(out->0.flatten() =~= cycled_after(pending.drop_first().flatten(), all, 0));
            lemma_hands_out_more(batch.take(taken as int), out->0, out->0.flatten());
            2
        } else {
            let steps = lemma_reading(files, read, later, at, full);
            let out = read_out(files, read, later, RepeatAction::Read, steps);
            lemma_hands_out_more(batch.take(taken as int), out->0, out->0.flatten());
            steps + 1
        }
    } else {
        let next: int = if at == files.len() {
            0
        } else {
            at
        };
        let (closed, open) = repeat_step(s, RepeatEvent::EndOfFile);
        assert(open == RepeatAction::Open { file: next as usize });
        let (after, read) = repeat_step(closed, RepeatEvent::Opened);
        let steps = lemma_reading(files, after, files[next], next + 1, full);
        let skipped = files.skip(next);
        assert(skipped.drop_first() =~= files.skip(next + 1));
        assert(skipped.first() == files[next]);
        assert(skipped.flatten() == files[next] + files.skip(next + 1).flatten());
        if at == files.len() {
            assert(files.skip(at).flatten() =~= Seq::<Seq<T>>::empty());
            assert(pending.flatten() =~= Seq::<T>::empty());
            assert(files.skip(0) =~= files);
            lemma_goes_round(all, n);
        } else {
            assert(pending =~= files.skip(at).flatten());
        }
        assert(read_out(files, closed, rest, open, (steps + 1) as nat) == read_out(
            files,
            after,
            files[next],
            read,
            steps,
        ));
        assert(read_out(files, s, rest, RepeatAction::Read, (steps + 2) as nat) == read_out(
            files,
            closed,
            rest,
            open,
            (steps + 1) as nat,
        ));
        steps + 2
    }
}

/// Without a row in any file.
proof fn lemma_reading_nothing<T>(files: Seq<Seq<Seq<T>>>, s: RepeatState) -> (steps: nat)
    requires
        files_fit(files),
        forall|f: int| 0 <= f < files.len() ==> (#[trigger] files[f]).len() == 0,
        s.files == files.len(),
        s.open,
        s.remaining_rows > 0,
        s.next_file_idx < s.files,
        !s.current_file_had_rows,
        s.empty_file_steps < s.files,
    ensures
        read_out(files, s, Seq::empty(), RepeatAction::Read, steps) == Some(
            Seq::<Seq<T>>::empty(),
        ),
    decreases s.files - s.empty_file_steps,
{
    let none = Seq::<Seq<T>>::empty();
    let (closed, open) = repeat_step(s, RepeatEvent::EndOfFile);
    if s.empty_file_steps + 1 >= s.files {
        assert(read_out(files, closed, none, open, 1) == Some(none));
        2
    } else {
        let next = s.next_file_idx as int;
        let (after, read) = repeat_step(closed, RepeatEvent::Opened);
        assert(files[next] =~= none);
        let steps = lemma_reading_nothing(files, after);
        assert(read_out(files, closed, none, open, (steps + 1) as nat) == read_out(
            files,
            after,
            none,
            read,
            steps,
        ));
        steps + 2
    }
}

proof fn lemma_all_empty<T>(files: Seq<Seq<Seq<T>>>)
    requires
        forall|f: int| 0 <= f < files.len() ==> (#[trigger] files[f]).len() == 0,
    ensures
        files.flatten().len() == 0,
    decreases files.len(),
{
    if files.len() > 0 {
        let later = files.drop_first();
        assert forall|f: int| 0 <= f < later.len() implies (#[trigger] later[f]).len() == 0 by {
            assert(later[f] == files[f + 1]);
        }
        lemma_all_empty(later);
    }
}

proof fn lemma_some_row<T>(files: Seq<Seq<Seq<T>>>, full: int)
    requires
        forall|f: int| 0 <= f < files.len() ==> batches_fit(#[trigger] files[f]),
        0 <= full < files.len(),
        files[full].len() > 0,
    ensures
        files.flatten().len() > 0,
        files.flatten()[0].len() > 0,
    decreases files.len(),
{
    if files[0].len() > 0 {
        assert(files.flatten()[0] == files[0][0]);
    } else {
        let later = files.drop_first();
        assert forall|f: int| 0 <= f < later.len() implies batches_fit(#[trigger] later[f]) by {
            assert(later[f] == files[f + 1]);
        }
        assert(later[full - 1] == files[full]);
        lemma_some_row(later, full - 1);
        assert(files.flatten() =~= later.flatten());
    }
}

proof fn lemma_more_steps<T>(
    files: Seq<Seq<Seq<T>>>,
    s: RepeatState,
    rest: Seq<Seq<T>>,
    action: RepeatAction,
    steps: nat,
    more: nat,
)
    requires
        read_out(files, s, rest, action, steps) is Some,
        steps <= more,
    ensures
        read_out(files, s, rest, action, more) == read_out(files, s, rest, action, steps),
    decreases steps,
{
    let (left, more_left) = ((steps - 1) as nat, (more - 1) as nat);
    match action {
        RepeatAction::Open { file } => {
            let (after, next) = repeat_step(s, RepeatEvent::Opened);
            lemma_more_steps(files, after, files[file as int], next, left, more_left);
        },
        RepeatAction::Read => if rest.len() == 0 {
            let (after, next) = repeat_step(s, RepeatEvent::EndOfFile);
            lemma_more_steps(files, after, rest, next, left, more_left);
        } else {
            let (read, hand) = repeat_step(s, RepeatEvent::Batch { rows: rest[0].len() as usize });
            let (after, next) = repeat_step(read, RepeatEvent::Next);
            lemma_more_steps(files, after, rest.drop_first(), next, left, more_left);
        },
        _ => {},
    }
}

/// A reader that goes through its files over and over comes to an end. Until then it has handed
/// out, in batches that all have rows, exactly the first `limit_rows` of the rows of the first
/// file, then of the second and so on, and of the first again after the last. Where no file has a
/// row, or no row is asked for, it hands out no batch.
pub proof fn law_files_repeat_to_the_limit<T>(files: Seq<Seq<Seq<T>>>, limit_rows: u64)
    requires
        files_fit(files),
    ensures
        exists|steps: nat| (#[trigger] read_repeatedly(files, limit_rows, steps)) is Some,
        forall|steps: nat|
            (#[trigger] read_repeatedly(files, limit_rows, steps)) matches Some(out) ==> {
                &&& out.flatten() == cycled(files.flatten().flatten(), limit_rows as nat)
                &&& forall|i: int| 0 <= i < out.len() ==> (#[trigger] out[i]).len() > 0
                &&& limit_rows == 0 || files.flatten().flatten().len() == 0 ==> out.len() == 0
            },
{
    let fresh = repeat_fresh(files.len() as usize, limit_rows);
    let all = files.flatten().flatten();
    let wanted = cycled(all, limit_rows as nat);
    let none = Seq::<Seq<T>>::empty();
    let (s, action) = repeat_step(fresh, RepeatEvent::Next);
    let (opened, read) = repeat_step(s, RepeatEvent::Opened);
    let enough: nat = if limit_rows == 0 {
        assert(none.flatten() =~= wanted);
        1
    } else if exists|f: int| 0 <= f < files.len() && (#[trigger] files[f]).len() > 0 {
        let full = choose|f: int| 0 <= f < files.len() && (#[trigger] files[f]).len() > 0;
        lemma_some_row(files, full);
        let steps = lemma_reading(files, opened, files[0], 1, full);
        assert(files.skip(1) =~= files.drop_first());
        assert(files.flatten() == files[0] + files.skip(1).flatten());
        lemma_goes_round(all, limit_rows as nat);
        steps + 1
    } else {
        lemma_all_empty(files);
        assert(files.flatten().flatten() =~= Seq::<T>::empty());
        assert(files[0] =~= none);
        let steps = lemma_reading_nothing(files, opened);
        assert(none.flatten() =~= wanted);
        steps + 1
    };
    let out = read_repeatedly(files, limit_rows, enough);
    assert(hands_out(out, wanted));
    assert forall|steps: nat| (#[trigger] read_repeatedly(files, limit_rows, steps)) is Some implies read_repeatedly(
        files,
        limit_rows,
        steps,
    ) == out by {
        if steps <= enough {
            lemma_more_steps(files, s, none, action, steps, enough);
        } else {
            lemma_more_steps(files, s, none, action, enough, steps);
        }
    }
    if limit_rows == 0 || all.len() == 0 {
        assert(wanted.len() == 0);
        if out->0.len() > 0 {
            assert(out->0[0].len() > 0);
            assert(out->0.flatten().len() >= out->0[0].len());
        }
    }
}

} // verus!
