//! Which rows of a Parquet file are read.
use vstd::prelude::*;

use crate::csv_rows::rows_in;
use crate::parquet_options::{ParquetReadMode, ParquetWriterProfile};
use crate::text::{text_eq, views};

verus! {

/// The Parquet engine.
#[derive(Debug)]
pub struct ParquetEngine;

impl ParquetEngine {
    /// The engine.
    pub fn new() -> (engine: ParquetEngine)
        ensures
            engine == ParquetEngine,
    {
        ParquetEngine
    }
}

/// What the library keeps of an opened Parquet file.
#[derive(Debug)]
pub struct OpenedParquetFile {
    pub rows: u64,
    /// How many rows each row group has.
    pub row_group_rows: Vec<u64>,
    pub offset_index: bool,
    /// The names of the top level columns.
    pub root_names: Vec<String>,
    pub read_mode: ParquetReadMode,
    pub profile: ParquetWriterProfile,
}

impl OpenedParquetFile {
    /// How many rows the file has.
    pub fn row_count(&self) -> (n: u64)
        ensures
            n == self.rows,
    {
        self.rows
    }

    /// How many row groups the file has.
    pub fn row_group_count(&self) -> (n: usize)
        ensures
            n == self.row_group_rows.len(),
    {
        self.row_group_rows.len()
    }

    /// Whether the file has an offset index.
    pub fn has_offset_index(&self) -> (yes: bool)
        ensures
            yes == self.offset_index,
    {
        self.offset_index
    }

    /// The profile that the file was written with.
    pub fn writer_profile(&self) -> (profile: ParquetWriterProfile)
        ensures
            profile == self.profile,
    {
        self.profile
    }
}

// ---------------------------------------------------------------------------
// Row groups.
// ---------------------------------------------------------------------------

/// The sum of some numbers.
pub open spec fn total(s: Seq<u64>) -> nat
    decreases s.len(),
{
    if s.len() == 0 {
        0
    } else {
        total(s.drop_last()) + s.last() as nat
    }
}

/// A number, cut to what 64 bits hold.
pub open spec fn cut_u64(n: nat) -> u64 {
    if n <= u64::MAX {
        n as u64
    } else {
        u64::MAX
    }
}

/// The first row of each row group.
pub open spec fn group_starts(rows: Seq<u64>) -> Seq<u64> {
    Seq::new(rows.len(), |i: int| cut_u64(total(rows.take(i))))
}

/// The first row of each row group.
pub fn row_group_start_rows(rows: &Vec<u64>) -> (starts: Vec<u64>)
    ensures
        starts@ == group_starts(rows@),
{
    let mut starts: Vec<u64> = Vec::new();
    let mut start: u64 = 0;
    let mut i: usize = 0;
    assert(rows@.take(0) =~= Seq::<u64>::empty());
    while i < rows.len()
        invariant
            i <= rows.len(),
            start == cut_u64(total(rows@.take(i as int))),
            starts@ == group_starts(rows@).take(i as int),
        decreases rows.len() - i,
    {
        starts.push(start);
        assert(rows@.take(i as int + 1).drop_last() =~= rows@.take(i as int));
        start = if rows[i] > u64::MAX - start {
            u64::MAX
        } else {
            start + rows[i]
        };
        i += 1;
        assert(starts@ =~= group_starts(rows@).take(i as int));
    }
    assert(starts@ =~= group_starts(rows@));
    starts
}

/// Whether numbers do not decrease.
pub open spec fn nondecreasing(s: Seq<u64>) -> bool {
    forall|i: int, j: int| 0 <= i <= j < s.len() ==> s[i] <= s[j]
}

/// Whether `at` is the row group of a row: the last one that begins at or before it, and the
/// first one where none does.
pub open spec fn is_group_of(starts: Seq<u64>, row: u64, at: int) -> bool {
    &&& 0 <= at < starts.len()
    &&& starts[at] <= row || at == 0
    &&& forall|k: int| at < k < starts.len() ==> #[trigger] starts[k] > row
}

/// The row group of a row, and the row's position in it. A file without row groups has none.
pub fn locate_row_group(row_group_start_rows: &Vec<u64>, row_offset: u64) -> (found: Option<
    (usize, u64),
>)
    requires
        nondecreasing(row_group_start_rows@),
    ensures
        found is None <==> row_group_start_rows.len() == 0,
        match found {
            Some((at, inner)) => is_group_of(row_group_start_rows@, row_offset, at as int) && inner
                == if row_offset >= row_group_start_rows@[at as int] {
                (row_offset - row_group_start_rows@[at as int]) as u64
            } else {
                0
            },
            None => true,
        },
{
    let n: usize = row_group_start_rows.len();
    if n == 0 {
        return None;
    }
    let mut lo: usize = 0;
    let mut hi: usize = n;
    while lo < hi
        invariant
            lo <= hi <= n,
            n == row_group_start_rows.len(),
            nondecreasing(row_group_start_rows@),
            forall|k: int| 0 <= k < lo ==> #[trigger] row_group_start_rows@[k] <= row_offset,
            forall|k: int| hi <= k < n ==> #[trigger] row_group_start_rows@[k] > row_offset,
        decreases hi - lo,
    {
        let mid: usize = lo + (hi - lo) / 2;
        if row_group_start_rows[mid] <= row_offset {
            lo = mid + 1;
        } else {
            hi = mid;
        }
    }
    let at: usize = if lo > 0 {
        lo - 1
    } else {
        0
    };
    let start: u64 = row_group_start_rows[at];
    let inner: u64 = if row_offset >= start {
        row_offset - start
    } else {
        0
    };
    Some((at, inner))
}

proof fn lemma_total_monotone(rows: Seq<u64>, i: int, j: int)
    requires
        0 <= i <= j <= rows.len(),
    ensures
        total(rows.take(i)) <= total(rows.take(j)),
    decreases j - i,
{
    if i < j {
        lemma_total_monotone(rows, i, j - 1);
        assert(rows.take(j).drop_last() =~= rows.take(j - 1));
    }
}

/// The starts of row groups do not decrease.
pub proof fn law_starts_ordered(rows: Seq<u64>)
    ensures
        nondecreasing(group_starts(rows)),
{
    assert forall|i: int, j: int| 0 <= i <= j < group_starts(rows).len() implies group_starts(
        rows,
    )[i] <= group_starts(rows)[j] by {
        lemma_total_monotone(rows, i, j);
    }
}

/// A row of the file is found in its row group: the group holds it, at the position told.
pub proof fn law_row_is_in_its_group(rows: Seq<u64>, row: u64, at: int)
    requires
        total(rows) <= u64::MAX,
        row < total(rows),
        is_group_of(group_starts(rows), row, at),
    ensures
        group_starts(rows)[at] <= row,
        row - group_starts(rows)[at] < rows[at],
{
    let starts = group_starts(rows);
    assert(rows.take(rows.len() as int) =~= rows);
    assert forall|k: int| 0 <= k <= rows.len() implies total(#[trigger] rows.take(k)) <= u64::MAX by {
        lemma_total_monotone(rows, k, rows.len() as int);
    }
    if at == 0 {
        assert(rows.take(0) =~= Seq::<u64>::empty());
        assert(starts[0] == 0);
    }
    assert(rows.take(at + 1).drop_last() =~= rows.take(at));
    assert(total(rows.take(at + 1)) == total(rows.take(at)) + rows[at]);
    assert(starts[at] == total(rows.take(at)));
    if at + 1 < rows.len() {
        assert(starts[at + 1] == total(rows.take(at + 1)));
        assert(starts[at + 1] > row);
    } else {
        assert(rows.take(at + 1) =~= rows);
    }
}

pub(crate) proof fn lemma_group_ends(rows: Seq<u64>, at: int)
    requires
        total(rows) <= u64::MAX,
        0 <= at < rows.len(),
    ensures
        group_starts(rows)[at] + rows[at] <= total(rows),
{
    assert(rows.take(rows.len() as int) =~= rows);
    lemma_total_monotone(rows, at, rows.len() as int);
    lemma_total_monotone(rows, at + 1, rows.len() as int);
    assert(rows.take(at + 1).drop_last() =~= rows.take(at));
}

// ---------------------------------------------------------------------------
// Columns.
// ---------------------------------------------------------------------------

/// Whether `at` is the position of a name: the last one that has it.
pub open spec fn is_root(names: Seq<Seq<char>>, name: Seq<char>, at: int) -> bool {
    &&& 0 <= at < names.len()
    &&& names[at] == name
    &&& forall|k: int| at < k < names.len() ==> #[trigger] names[k] != name
}

/// The position of a top level column.
pub fn root_index(names: &Vec<String>, name: &str) -> (at: Option<usize>)
    ensures
        match at {
            Some(i) => is_root(views(names@), name@, i as int),
            None => !views(names@).contains(name@),
        },
{
    let mut i: usize = names.len();
    while i > 0
        invariant
            i <= names.len(),
            forall|k: int| i <= k < names.len() ==> #[trigger] views(names@)[k] != name@,
        decreases i,
    {
        assert(views(names@)[i - 1] == names@[i - 1]@);
        if text_eq(names[i - 1].as_str(), name) {
            return Some(i - 1);
        }
        i -= 1;
    }
    None
}

/// Which columns a projection takes.
#[derive(Debug, Clone, PartialEq, Eq)]
pub enum Projection {
    All,
    Roots(Vec<usize>),
}

/// Whether a projection takes the named columns. No names, or an empty list, take all.
pub open spec fn projects(
    p: Projection,
    names: Seq<Seq<char>>,
    wanted: Option<Seq<Seq<char>>>,
) -> bool {
    match wanted {
        Some(cols) if cols.len() > 0 => match p {
            Projection::Roots(roots) => roots.len() == cols.len() && forall|i: int|
                0 <= i < roots.len() ==> is_root(names, cols[i], (#[trigger] roots@[i]) as int),
            Projection::All => false,
        },
        _ => p is All,
    }
}

/// The contents of an optional list.
pub open spec fn opt_list(list: Option<Vec<String>>) -> Option<Seq<Seq<char>>> {
    match list {
        Some(l) => Some(views(l@)),
        None => None,
    }
}

/// Which columns a projection takes. The first name that the file lacks comes back as the error.
pub fn build_projection(names: &Vec<String>, wanted: &Option<Vec<String>>) -> (p: Result<
    Projection,
    String,
>)
    ensures
        match p {
            Ok(p) => projects(p, views(names@), opt_list(*wanted)),
            Err(missing) => match opt_list(*wanted) {
                Some(cols) => exists|i: int|
                    0 <= i < cols.len() && #[trigger] cols[i] == missing@ && !views(
                        names@,
                    ).contains(cols[i]) && forall|k: int|
                        0 <= k < i ==> views(names@).contains(#[trigger] cols[k]),
                None => false,
            },
        },
{
    match wanted {
        None => Ok(Projection::All),
        Some(cols) => {
            if cols.len() == 0 {
                return Ok(Projection::All);
            }
            let mut roots: Vec<usize> = Vec::new();
            let mut i: usize = 0;
            while i < cols.len()
                invariant
                    i <= cols.len(),
                    *wanted == Some(*cols),
                    roots.len() == i,
                    forall|k: int|
                        0 <= k < i ==> is_root(
                            views(names@),
                            views(cols@)[k],
                            (#[trigger] roots@[k]) as int,
                        ),
                    forall|k: int| 0 <= k < i ==> views(names@).contains(#[trigger] views(cols@)[k]),
                decreases cols.len() - i,
            {
                assert(views(cols@)[i as int] == cols@[i as int]@);
                match root_index(names, cols[i].as_str()) {
                    Some(at) => {
                        assert(views(names@)[at as int] == views(cols@)[i as int]);
                        roots.push(at);
                    },
                    None => {
                        let missing = cols[i].clone();
                        proof {
                            let all = opt_list(*wanted)->0;
                            assert(all[i as int] == missing@);
                            assert(forall|k: int|
                                0 <= k < i ==> views(names@).contains(#[trigger] all[k]));
                        }
                        return Err(missing);
                    },
                }
                i += 1;
            }
            Ok(Projection::Roots(roots))
        },
    }
}

// ---------------------------------------------------------------------------
// Scans.
// ---------------------------------------------------------------------------

/// The rows of a scan that count: some are left out first, then a number is taken.
#[derive(Debug, Clone, Copy, PartialEq, Eq, Structural)]
pub struct ScanWindow {
    pub remaining_offset: u64,
    pub remaining_limit: u64,
}

/// What a scan takes of a batch.
#[derive(Debug, Clone, Copy, PartialEq, Eq, Structural)]
pub enum ScanTake {
    /// Nothing.
    Skip,
    /// Some rows from a position on; and whether the scan is complete with them.
    Take { start: usize, rows: usize, done: bool },
}

/// The window and what is taken after a batch of some rows.
pub open spec fn window_step(w: ScanWindow, rows: usize) -> (ScanWindow, ScanTake) {
    if rows == 0 {
        (w, ScanTake::Skip)
    } else if w.remaining_offset >= rows {
        (
            ScanWindow { remaining_offset: (w.remaining_offset - rows) as u64, ..w },
            ScanTake::Skip,
        )
    } else {
        let start = w.remaining_offset;
        let available = rows - start;
        let take = if available <= w.remaining_limit {
            available
        } else {
            w.remaining_limit as int
        };
        let left = w.remaining_limit - take;
        (
            ScanWindow { remaining_offset: 0, remaining_limit: left as u64 },
            ScanTake::Take { start: start as usize, rows: take as usize, done: left == 0 },
        )
    }
}

impl ScanWindow {
    /// The window of an offset and a limit; without them it takes all rows.
    pub fn new(row_offset: Option<u64>, limit_rows: Option<u64>) -> (w: ScanWindow)
        ensures
            w.remaining_offset == (match row_offset {
                Some(v) => v,
                None => 0,
            }),
            w.remaining_limit == (match limit_rows {
                Some(v) => v,
                None => u64::MAX,
            }),
    {
        ScanWindow {
            remaining_offset: match row_offset {
                Some(v) => v,
                None => 0,
            },
            remaining_limit: match limit_rows {
                Some(v) => v,
                None => u64::MAX,
            },
        }
    }

    /// What the scan takes of a batch of some rows.
    pub fn take(&mut self, rows: usize) -> (taken: ScanTake)
        ensures
            (*final(self), taken) == window_step(*old(self), rows),
    {
        if rows == 0 {
            return ScanTake::Skip;
        }
        if self.remaining_offset >= rows as u64 {
            self.remaining_offset = self.remaining_offset - rows as u64;
            return ScanTake::Skip;
        }
        let start: usize = self.remaining_offset as usize;
        let available: usize = rows - start;
        let take: usize = if available as u64 <= self.remaining_limit {
            available
        } else {
            self.remaining_limit as usize
        };
        self.remaining_offset = 0;
        self.remaining_limit = self.remaining_limit - take as u64;
        ScanTake::Take { start, rows: take, done: self.remaining_limit == 0 }
    }
}

/// The window after some batches, the rows that were taken, and whether the scan was complete; a
/// complete scan reads no further batch.
pub open spec fn window_run<T>(w: ScanWindow, batches: Seq<Seq<T>>) -> (ScanWindow, Seq<T>, bool)
    decreases batches.len(),
{
    if batches.len() == 0 {
        (w, Seq::empty(), false)
    } else {
        let (before, taken, complete) = window_run(w, batches.drop_last());
        let batch = batches.last();
        if complete {
            (before, taken, true)
        } else {
            match window_step(before, batch.len() as usize) {
                (after, ScanTake::Take { start, rows, done }) => (
                    after,
                    taken + batch.subrange(start as int, start + rows),
                    done,
                ),
                (after, ScanTake::Skip) => (after, taken, false),
            }
        }
    }
}

/// The rows behind an offset, up to a limit.
pub open spec fn window_of<T>(rows: Seq<T>, offset: u64, limit: u64) -> Seq<T> {
    if rows.len() <= offset {
        Seq::empty()
    } else if rows.len() <= offset + limit {
        rows.skip(offset as int)
    } else {
        rows.subrange(offset as int, offset + limit)
    }
}

/// A scan takes exactly the rows behind the offset, up to the limit, in their order, however the
/// rows are cut into batches.
pub proof fn law_scan_takes_the_window<T>(w: ScanWindow, batches: Seq<Seq<T>>)
    requires
        forall|i: int| 0 <= i < batches.len() ==> (#[trigger] batches[i]).len() <= usize::MAX,
    ensures
        window_run(w, batches).1 == window_of(
            rows_in(batches),
            w.remaining_offset,
            w.remaining_limit,
        ),
{
    lemma_window(w, batches);
}

proof fn lemma_window<T>(w: ScanWindow, batches: Seq<Seq<T>>)
    requires
        forall|i: int| 0 <= i < batches.len() ==> (#[trigger] batches[i]).len() <= usize::MAX,
    ensures
        ({
            let (after, taken, complete) = window_run(w, batches);
            let all = rows_in(batches);
            let (offset, limit) = (w.remaining_offset, w.remaining_limit);
            &&& taken == window_of(all, offset, limit)
            &&& after.remaining_limit == limit - taken.len()
            &&& complete ==> after.remaining_limit == 0 && all.len() >= offset + limit
            &&& !complete ==> after.remaining_offset == (if all.len() >= offset {
                0
            } else {
                offset - all.len()
            })
            &&& !complete && all.len() > offset ==> after.remaining_limit > 0
        }),
    decreases batches.len(),
{
    let (after, taken, complete) = window_run(w, batches);
    let all = rows_in(batches);
    let (offset, limit) = (w.remaining_offset, w.remaining_limit);
    if batches.len() == 0 {
        assert(taken =~= window_of(all, offset, limit));
    } else {
        let earlier = batches.drop_last();
        let batch = batches.last();
        assert(batches[batches.len() - 1] == batch);
        assert forall|i: int| 0 <= i < earlier.len() implies (#[trigger] earlier[i]).len()
            <= usize::MAX by {
            assert(earlier[i] == batches[i]);
        }
        lemma_window(w, earlier);
        assert(all == rows_in(earlier) + batch);
        assert(taken =~= window_of(all, offset, limit));
    }
}

/// Looks for a row in batches that come one after the other.
#[derive(Debug, Clone, Copy, PartialEq, Eq, Structural)]
pub struct RowCursor {
    pub target: u64,
    pub seen: u64,
}

/// The cursor after a batch, and the position of the row in it where it is there.
pub open spec fn cursor_step(c: RowCursor, rows: u64) -> (RowCursor, Option<nat>) {
    let end = cut_u64((c.seen + rows) as nat);
    if c.target < end {
        (c, Some((c.target - c.seen) as nat))
    } else {
        (RowCursor { seen: end, ..c }, None)
    }
}

impl RowCursor {
    /// Looks for a row.
    pub fn new(target: u64) -> (c: RowCursor)
        ensures
            c == (RowCursor { target, seen: 0 }),
    {
        RowCursor { target, seen: 0 }
    }

    /// Whether the row is in the next batch, and where.
    pub fn find(&mut self, rows: u64) -> (at: Option<u64>)
        requires
            old(self).seen <= old(self).target,
        ensures
            cursor_step(*old(self), rows).0 == *final(self),
            match at {
                Some(i) => cursor_step(*old(self), rows).1 == Some(i as nat) && i < rows,
                None => cursor_step(*old(self), rows).1 is None,
            },
            final(self).seen <= final(self).target,
    {
        let end: u64 = if rows > u64::MAX - self.seen {
            u64::MAX
        } else {
            self.seen + rows
        };
        if self.target < end {
            Some(self.target - self.seen)
        } else {
            self.seen = end;
            None
        }
    }
}

/// The cursor after some batches in which the row was not.
pub open spec fn cursor_after(target: u64, batches: Seq<u64>) -> RowCursor
    decreases batches.len(),
{
    if batches.len() == 0 {
        RowCursor { target, seen: 0 }
    } else {
        cursor_step(cursor_after(target, batches.drop_last()), batches.last()).0
    }
}

/// A row is found in the batch that holds it, at its position there, and in none before.
pub proof fn law_cursor_finds_the_row(target: u64, batches: Seq<u64>, next: u64)
    requires
        total(batches) <= target,
        total(batches) + next <= u64::MAX,
    ensures
        cursor_after(target, batches) == (RowCursor { target, seen: total(batches) as u64 }),
        target < total(batches) + next ==> cursor_step(cursor_after(target, batches), next).1
            == Some((target - total(batches)) as nat),
        target >= total(batches) + next ==> cursor_step(cursor_after(target, batches), next).1
            is None,
    decreases batches.len(),
{
    if batches.len() > 0 {
        law_cursor_finds_the_row(target, batches.drop_last(), batches.last());
    }
}

/// The position among all the rows at which a search through batches stops; none where it does not
/// find the row.
pub open spec fn found_at(target: u64, batches: Seq<u64>) -> Option<nat>
    decreases batches.len(),
{
    if batches.len() == 0 {
        None
    } else {
        let before = batches.drop_last();
        match found_at(target, before) {
            Some(position) => Some(position),
            None => match cursor_step(cursor_after(target, before), batches.last()).1 {
                Some(index) => Some(total(before) + index),
                None => None,
            },
        }
    }
}

/// A search through batches finds the row at its position where there is such a row, and nothing
/// where there is none.
pub proof fn law_found_where_it_is(target: u64, batches: Seq<u64>)
    requires
        total(batches) <= u64::MAX,
    ensures
        found_at(target, batches) == if target < total(batches) {
            Some(target as nat)
        } else {
            None
        },
    decreases batches.len(),
{
    if batches.len() > 0 {
        law_found_where_it_is(target, batches.drop_last());
        if total(batches.drop_last()) <= target {
            law_cursor_finds_the_row(target, batches.drop_last(), batches.last());
        }
    }
}

} // verus!
