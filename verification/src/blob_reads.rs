//! Reading many blobs of a Parquet file at once.
use std::ops::Range;

use parquet::arrow::arrow_reader::RowSelection;
use vstd::prelude::*;
use vstd::seq_lib::{commutative_foldr, lemma_fold_right_permutation};

use crate::numbers::{decimal, push_decimal};
use crate::parquet_options::ParquetReadMode;
use crate::parquet_reads::{
    found_at, group_starts, is_group_of, is_root, law_found_where_it_is, law_row_is_in_its_group,
    law_starts_ordered, lemma_group_ends, locate_row_group, root_index, total, OpenedParquetFile,
};
use crate::sorting::{
    in_sequence, law_sort_keeps_elements, law_sort_orders, sort_by, stable_sort,
};
use crate::text::views;

verus! {

// ---------------------------------------------------------------------------
// Row selections.
// ---------------------------------------------------------------------------

/// A selection of rows, as `parquet` has it.
#[verifier::external_type_specification]
#[verifier::external_body]
pub struct ExRowSelection(parquet::arrow::arrow_reader::RowSelection);

/// Which rows of all a selection takes: one truth value per row.
pub uninterp spec fn selected_rows(selection: RowSelection) -> Seq<bool>;

/// Whether some range holds a row.
pub open spec fn in_ranges(ranges: Seq<Range<usize>>, row: int) -> bool {
    exists|i: int| 0 <= i < ranges.len() && (#[trigger] ranges[i]).start <= row < ranges[i].end
}

/// Whether no range is empty.
pub open spec fn none_empty(ranges: Seq<Range<usize>>) -> bool {
    forall|i: int| 0 <= i < ranges.len() ==> (#[trigger] ranges[i]).start < ranges[i].end
}

/// Whether ranges come in order and do not touch each other.
pub open spec fn apart(ranges: Seq<Range<usize>>) -> bool {
    forall|i: int, j: int|
        0 <= i < j < ranges.len() ==> (#[trigger] ranges[i]).end < (#[trigger] ranges[j]).start
}

/// Whether no range goes on where the one before it ends.
pub open spec fn none_goes_on(ranges: Seq<Range<usize>>) -> bool {
    forall|i: int, j: int|
        0 <= i < ranges.len() && j == i + 1 && j < ranges.len() ==> (#[trigger] ranges[i]).end != (
        #[trigger] ranges[j]).start
}

/// Whether ranges are not empty, come in order, do not touch each other and end within `rows`.
pub open spec fn ordered_ranges(ranges: Seq<Range<usize>>, rows: int) -> bool {
    &&& none_empty(ranges)
    &&& apart(ranges)
    &&& forall|i: int| 0 <= i < ranges.len() ==> (#[trigger] ranges[i]).end <= rows
}

/// `RowSelection::from_consecutive_ranges` makes a selection of all rows that takes those in the
/// ranges. Ranges out of order or beyond the last row panic.
#[verifier::external_body]
fn select_ranges(ranges: Vec<Range<usize>>, rows: usize) -> (selection: RowSelection)
    requires
        ordered_ranges(ranges@, rows as int),
    ensures
        selected_rows(selection) == Seq::new(rows as nat, |r: int| in_ranges(ranges@, r)),
{
    RowSelection::from_consecutive_ranges(ranges.into_iter(), rows)
}

/// Whether numbers increase.
pub open spec fn increasing(s: Seq<u64>) -> bool {
    forall|i: int, j: int| 0 <= i < j < s.len() ==> s[i] < s[j]
}

/// Whether a row is among some rows.
pub open spec fn has_row(rows: Seq<u64>, row: int) -> bool {
    exists|i: int| 0 <= i < rows.len() && #[trigger] rows[i] == row
}

/// The rows from `start` up to `end`.
pub open spec fn row_run(start: int, end: int) -> Seq<int> {
    if start < end {
        Seq::new((end - start) as nat, |k: int| start + k)
    } else {
        Seq::empty()
    }
}

/// The rows of some ranges, one range after the other.
pub open spec fn expanded(ranges: Seq<Range<usize>>) -> Seq<int>
    decreases ranges.len(),
{
    if ranges.len() == 0 {
        Seq::empty()
    } else {
        expanded(ranges.drop_last()) + row_run(
            ranges.last().start as int,
            ranges.last().end as int,
        )
    }
}

/// Rows as numbers without a bound.
pub open spec fn row_numbers(rows: Seq<u64>) -> Seq<int> {
    Seq::new(rows.len(), |i: int| rows[i] as int)
}

/// The ranges of consecutive rows. The ranges hold the rows one by one, in the order given, and
/// are as few as can be: no range goes on where the one before it ends. Rows that increase give
/// ranges in order.
pub fn consecutive_row_ranges(rows: &Vec<u64>) -> (ranges: Result<
    Vec<Range<usize>>,
    BlobReadError,
>)
    requires
        forall|i: int| 0 <= i < rows.len() ==> #[trigger] rows@[i] != usize::MAX,
    ensures
        match ranges {
            Ok(ranges) => {
                &&& forall|i: int| 0 <= i < rows.len() ==> #[trigger] rows@[i] <= usize::MAX
                &&& expanded(ranges@) == row_numbers(rows@)
                &&& none_empty(ranges@)
                &&& none_goes_on(ranges@)
                &&& increasing(rows@) ==> apart(ranges@)
                &&& ranges.len() == 0 <==> rows.len() == 0
            },
            Err(error) => error == BlobReadError::RowTooLarge && exists|i: int|
                0 <= i < rows.len() && #[trigger] rows@[i] > usize::MAX,
        },
{
    let mut ranges: Vec<Range<usize>> = Vec::new();
    if rows.len() == 0 {
        assert(expanded(ranges@) =~= row_numbers(rows@));
        return Ok(ranges);
    }
    if rows[0] > usize::MAX as u64 {
        return Err(BlobReadError::RowTooLarge);
    }
    let mut start: usize = rows[0] as usize;
    let mut end: usize = start + 1;
    let mut i: usize = 1;
    assert(expanded(ranges@) + row_run(start as int, end as int) =~= row_numbers(rows@.take(1)));
    while i < rows.len()
        invariant
            1 <= i <= rows.len(),
            forall|k: int| 0 <= k < rows.len() ==> #[trigger] rows@[k] != usize::MAX,
            forall|k: int| 0 <= k < i ==> #[trigger] rows@[k] <= usize::MAX,
            start < end,
            end == rows@[i - 1] + 1,
            expanded(ranges@) + row_run(start as int, end as int) == row_numbers(
                rows@.take(i as int),
            ),
            none_empty(ranges@),
            none_goes_on(ranges@),
            ranges.len() > 0 ==> ranges@.last().end != start,
            increasing(rows@) ==> apart(ranges@) && (ranges.len() > 0 ==> ranges@.last().end
                < start),
        decreases rows.len() - i,
    {
        let ghost before = ranges@;
        let ghost (old_start, old_end) = (start as int, end as int);
        let ghost earlier = row_numbers(rows@.take(i as int));
        if rows[i] > usize::MAX as u64 {
            return Err(BlobReadError::RowTooLarge);
        }
        let row: usize = rows[i] as usize;
        assert(row_numbers(rows@.take(i + 1)) =~= earlier.push(row as int));
        if row == end {
            end = end + 1;
            assert(expanded(ranges@) + row_run(start as int, end as int) =~= earlier.push(
                row as int,
            )) by {
                assert(row_run(start as int, end as int) =~= row_run(old_start, old_end).push(
                    row as int,
                ));
            }
        } else {
            ranges.push(start..end);
            start = row;
            end = row + 1;
            proof {
                assert(before =~= ranges@.drop_last());
                assert(row_run(start as int, end as int) =~= seq![row as int]);
                assert(expanded(ranges@) + row_run(start as int, end as int) =~= earlier.push(
                    row as int,
                ));
                if increasing(rows@) {
                    assert(rows@[i - 1] < rows@[i as int]);
                    lemma_still_apart(before, ranges@);
                }
            }
        }
        i += 1;
    }
    let ghost before = ranges@;
    ranges.push(start..end);
    proof {
        assert(before =~= ranges@.drop_last());
        assert(rows@.take(i as int) =~= rows@);
        if increasing(rows@) {
            lemma_still_apart(before, ranges@);
        }
    }
    Ok(ranges)
}

proof fn lemma_still_apart(before: Seq<Range<usize>>, after: Seq<Range<usize>>)
    requires
        after.len() > 0,
        before == after.drop_last(),
        none_empty(before),
        apart(before),
        before.len() > 0 ==> before.last().end < after.last().start,
    ensures
        apart(after),
{
    assert forall|i: int, j: int| 0 <= i < j < after.len() implies (#[trigger] after[i]).end < (
    #[trigger] after[j]).start by {
        if j == before.len() {
            if i < before.len() - 1 {
                assert(before[i].end < before[before.len() - 1].start);
            }
        } else {
            assert(after[i] == before[i] && after[j] == before[j]);
        }
    }
}

proof fn lemma_expanded(ranges: Seq<Range<usize>>, row: int)
    ensures
        in_ranges(ranges, row) <==> expanded(ranges).contains(row),
    decreases ranges.len(),
{
    if ranges.len() > 0 {
        let front = ranges.drop_last();
        let last = ranges.last();
        let run = row_run(last.start as int, last.end as int);
        lemma_expanded(front, row);
        if in_ranges(ranges, row) {
            let i = choose|i: int|
                0 <= i < ranges.len() && (#[trigger] ranges[i]).start <= row < ranges[i].end;
            if i < front.len() {
                assert(front[i] == ranges[i]);
                let k = choose|k: int| 0 <= k < expanded(front).len() && expanded(front)[k] == row;
                assert(expanded(ranges)[k] == row);
            } else {
                assert(ranges[i] == last);
                assert(run[row - last.start] == row);
                assert(expanded(ranges)[expanded(front).len() + row - last.start] == row);
            }
        }
        if expanded(ranges).contains(row) {
            let k = choose|k: int| 0 <= k < expanded(ranges).len() && expanded(ranges)[k] == row;
            if k < expanded(front).len() {
                assert(expanded(front)[k] == row);
                let i = choose|i: int|
                    0 <= i < front.len() && (#[trigger] front[i]).start <= row < front[i].end;
                assert(ranges[i] == front[i]);
            } else {
                assert(run[k - expanded(front).len()] == row);
                assert(ranges[ranges.len() - 1] == last);
            }
        }
    }
}

/// The selection of some rows: exactly those.
pub fn select_rows(rows: &Vec<u64>, total_rows: usize) -> (selection: RowSelection)
    requires
        increasing(rows@),
        forall|i: int| 0 <= i < rows.len() ==> rows@[i] < total_rows,
    ensures
        selected_rows(selection) == Seq::new(
            total_rows as nat,
            |r: int| has_row(rows@, r),
        ),
{
    let ranges = match consecutive_row_ranges(rows) {
        Ok(ranges) => ranges,
        Err(_) => Vec::new(),
    };
    let ghost r = ranges@;
    proof {
        assert forall|k: int| in_ranges(r, k) == has_row(rows@, k) by {
            lemma_expanded(r, k);
            if expanded(r).contains(k) {
                let i = choose|i: int| 0 <= i < expanded(r).len() && expanded(r)[i] == k;
                assert(rows@[i] == k);
            }
            if has_row(rows@, k) {
                let i = choose|i: int| 0 <= i < rows.len() && #[trigger] rows@[i] == k;
                assert(expanded(r)[i] == k);
            }
        }
        assert forall|i: int| 0 <= i < r.len() implies (#[trigger] r[i]).end <= total_rows by {
            assert(in_ranges(r, r[i].end - 1));
        }
    }
    let selection = select_ranges(ranges, total_rows);
    assert(selected_rows(selection) =~= Seq::new(
        total_rows as nat,
        |r: int| has_row(rows@, r),
    ));
    selection
}

// ---------------------------------------------------------------------------
// One blob.
// ---------------------------------------------------------------------------

/// Why blobs cannot be read.
#[derive(Debug, Clone, Copy, PartialEq, Eq, Structural)]
pub enum BlobReadError {
    NotRowSelection,
    NoRows,
    /// The file has more rows than can be counted here.
    TooManyRows,
    /// The row group has more rows than can be counted here.
    GroupTooLarge,
    /// A row has a larger number than can be counted here.
    RowTooLarge,
    /// A row has a larger position in its row group than can be counted here.
    OffsetTooLarge,
    ColumnNotFound,
    NoRowGroups,
    DuplicateRows,
    /// The row asked for, its row group, and how many rows that has.
    OutsideGroup { row: u64, row_group: usize, rows: u64 },
    /// The largest row asked for, and how many rows there are.
    OutOfRange { row: u64, rows: u64 },
    /// How many rows came, and how many were asked for.
    WrongCount { got: usize, wanted: usize },
}

impl BlobReadError {
    /// The words of the error for a column.
    pub open spec fn words(self, column: Seq<char>) -> Seq<char> {
        match self {
            BlobReadError::NotRowSelection =>
                "batched binary reads require parquet row-selection mode"@,
            BlobReadError::NoRows => "batched binary reads require at least one row"@,
            BlobReadError::TooManyRows => "parquet row count does not fit usize"@,
            BlobReadError::GroupTooLarge => "row group row count does not fit usize"@,
            BlobReadError::RowTooLarge => "row offset does not fit usize"@,
            BlobReadError::OffsetTooLarge => "row offset within row group does not fit usize"@,
            BlobReadError::ColumnNotFound => "column not found: "@ + column,
            BlobReadError::NoRowGroups => "the file has no row groups"@,
            BlobReadError::DuplicateRows =>
                "a parquet RowSelection request cannot contain duplicate rows"@,
            BlobReadError::OutsideGroup { row, row_group, rows } => "row offset "@ + decimal(
                row as nat,
            ) + " is outside row group "@ + decimal(row_group as nat) + " with "@ + decimal(
                rows as nat,
            ) + " rows"@,
            BlobReadError::OutOfRange { row, rows } => "row offset "@ + decimal(row as nat)
                + " is outside parquet file with "@ + decimal(rows as nat) + " rows"@,
            BlobReadError::WrongCount { got, wanted } => "parquet RowSelection returned "@
                + decimal(got as nat) + " rows for "@ + decimal(wanted as nat)
                + " requested rows"@,
        }
    }

    /// The words of the error for a column.
    pub fn message(&self, column: &str) -> (out: String)
        ensures
            out@ == self.words(column@),
    {
        match self {
            BlobReadError::NotRowSelection => {
                "batched binary reads require parquet row-selection mode".to_owned()
            },
            BlobReadError::NoRows => "batched binary reads require at least one row".to_owned(),
            BlobReadError::TooManyRows => "parquet row count does not fit usize".to_owned(),
            BlobReadError::GroupTooLarge => "row group row count does not fit usize".to_owned(),
            BlobReadError::RowTooLarge => "row offset does not fit usize".to_owned(),
            BlobReadError::OffsetTooLarge => {
                "row offset within row group does not fit usize".to_owned()
            },
            BlobReadError::NoRowGroups => "the file has no row groups".to_owned(),
            BlobReadError::ColumnNotFound => {
                let mut out = "column not found: ".to_owned();
                out.append(column);
                out
            },
            BlobReadError::DuplicateRows => {
                "a parquet RowSelection request cannot contain duplicate rows".to_owned()
            },
            BlobReadError::OutsideGroup { row, row_group, rows } => {
                let mut out = "row offset ".to_owned();
                push_decimal(&mut out, *row as u128);
                out.append(" is outside row group ");
                push_decimal(&mut out, *row_group as u128);
                out.append(" with ");
                push_decimal(&mut out, *rows as u128);
                out.append(" rows");
                out
            },
            BlobReadError::OutOfRange { row, rows } => {
                let mut out = "row offset ".to_owned();
                push_decimal(&mut out, *row as u128);
                out.append(" is outside parquet file with ");
                push_decimal(&mut out, *rows as u128);
                out.append(" rows");
                out
            },
            BlobReadError::WrongCount { got, wanted } => {
                let mut out = "parquet RowSelection returned ".to_owned();
                push_decimal(&mut out, *got as u128);
                out.append(" rows for ");
                push_decimal(&mut out, *wanted as u128);
                out.append(" requested rows");
                out
            },
        }
    }
}

/// Where a blob is read: in which row group and column, at which row of what is read, and which
/// rows of the group are read.
pub struct BlobRead {
    pub row_group: usize,
    pub root: usize,
    pub target: u64,
    pub selection: Option<RowSelection>,
}

/// The selection of one row.
pub open spec fn only_row(rows: nat, row: int) -> Seq<bool> {
    Seq::new(rows, |r: int| r == row)
}

/// The position of the selected row that so many selected ones come before.
pub open spec fn nth_selected(selected: Seq<bool>, n: nat) -> int
    decreases selected.len(),
{
    if selected.len() == 0 {
        0
    } else if selected[0] && n == 0 {
        0
    } else {
        1 + nth_selected(
            selected.drop_first(),
            if selected[0] {
                (n - 1) as nat
            } else {
                n
            },
        )
    }
}

proof fn lemma_nth(selected: Seq<bool>, rows: Seq<int>, k: int)
    requires
        forall|i: int, j: int| 0 <= i < j < rows.len() ==> rows[i] < rows[j],
        forall|i: int| 0 <= i < rows.len() ==> 0 <= #[trigger] rows[i] < selected.len(),
        forall|r: int| 0 <= r < selected.len() ==> #[trigger] selected[r] == rows.contains(r),
        0 <= k < rows.len(),
    ensures
        nth_selected(selected, k as nat) == rows[k],
    decreases selected.len(),
{
    let rest = selected.drop_first();
    let skip: int = if selected[0] {
        1
    } else {
        0
    };
    if selected[0] {
        let i = choose|i: int| 0 <= i < rows.len() && rows[i] == 0;
        assert(rows[0] <= rows[i]);
    } else if rows[0] == 0 {
        assert(rows.contains(0));
    }
    if !(selected[0] && k == 0) {
        let later = Seq::new((rows.len() - skip) as nat, |i: int| rows[i + skip] - 1);
        assert forall|i: int| 0 <= i < later.len() implies 0 <= #[trigger] later[i] < rest.len() by {
            assert(rows[0] <= rows[i + skip]);
        }
        assert forall|r: int| 0 <= r < rest.len() implies #[trigger] rest[r] == later.contains(r) by {
            assert(rest[r] == selected[r + 1]);
            if later.contains(r) {
                let i = choose|i: int| 0 <= i < later.len() && later[i] == r;
                assert(rows[i + skip] == r + 1);
            }
            if rows.contains(r + 1) {
                let i = choose|i: int| 0 <= i < rows.len() && rows[i] == r + 1;
                assert(later[i - skip] == r);
            }
        }
        lemma_nth(rest, later, k - skip);
    }
}

/// A selection hands its rows out in order: the first is the first of the rows, and so on.
pub proof fn law_selected_rows_keep_order(rows: Seq<u64>, total_rows: nat, k: int)
    requires
        increasing(rows),
        forall|i: int| 0 <= i < rows.len() ==> rows[i] < total_rows,
        0 <= k < rows.len(),
    ensures
        nth_selected(Seq::new(total_rows, |r: int| has_row(rows, r)), k as nat) == rows[k],
{
    let selected = Seq::new(total_rows, |r: int| has_row(rows, r));
    let positions = Seq::new(rows.len(), |i: int| rows[i] as int);
    assert forall|r: int| 0 <= r < selected.len() implies #[trigger] selected[r]
        == positions.contains(r) by {
        if has_row(rows, r) {
            let i = choose|i: int| 0 <= i < rows.len() && #[trigger] rows[i] == r;
            assert(positions[i] == r);
        }
        if positions.contains(r) {
            let i = choose|i: int| 0 <= i < positions.len() && positions[i] == r;
            assert(rows[i] == r);
        }
    }
    lemma_nth(selected, positions, k);
}

proof fn lemma_only_row(rows: nat, row: int)
    requires
        0 <= row < rows,
    ensures
        nth_selected(only_row(rows, row), 0) == row,
    decreases rows,
{
    if row > 0 {
        lemma_only_row((rows - 1) as nat, row - 1);
        assert(only_row(rows, row).drop_first() =~= only_row((rows - 1) as nat, row - 1));
    }
}

/// The row of the file that a plan reads.
pub open spec fn row_read(starts: Seq<u64>, plan: BlobRead) -> int {
    starts[plan.row_group as int] + match plan.selection {
        None => plan.target as int,
        Some(selection) => nth_selected(selected_rows(selection), plan.target as nat),
    }
}

/// Whether a plan is that of a blob. Read in sequence, the row is looked for in its row group. By
/// selection, exactly that row is read; it has to be in the group.
pub open spec fn plans_blob(
    opened: OpenedParquetFile,
    row_offset: u64,
    column: Seq<char>,
    plan: Result<BlobRead, BlobReadError>,
) -> bool {
    let names = views(opened.root_names@);
    let starts = group_starts(opened.row_group_rows@);
    match plan {
        Ok(p) => {
            let group_rows = opened.row_group_rows@[p.row_group as int];
            let inner = row_offset - starts[p.row_group as int];
            &&& is_root(names, column, p.root as int)
            &&& is_group_of(starts, row_offset, p.row_group as int)
            &&& group_rows <= usize::MAX
            &&& row_read(starts, p) == row_offset
            &&& match p.selection {
                None => opened.read_mode == ParquetReadMode::Sequential && p.target == inner,
                Some(s) => opened.read_mode == ParquetReadMode::RowSelection && p.target == 0
                    && inner < group_rows && selected_rows(s) == only_row(group_rows as nat, inner),
            }
        },
        Err(BlobReadError::ColumnNotFound) => !names.contains(column),
        Err(BlobReadError::NoRowGroups) => names.contains(column) && opened.row_group_rows.len()
            == 0,
        Err(BlobReadError::GroupTooLarge) => names.contains(column) && exists|at: int| #[trigger]
            is_group_of(starts, row_offset, at) && opened.row_group_rows@[at] > usize::MAX,
        Err(BlobReadError::OffsetTooLarge) => {
            &&& names.contains(column)
            &&& opened.read_mode == ParquetReadMode::RowSelection
            &&& exists|at: int| #[trigger]
                is_group_of(starts, row_offset, at) && opened.row_group_rows@[at] <= usize::MAX
                    && row_offset - starts[at] > usize::MAX
        },
        Err(BlobReadError::OutsideGroup { row, row_group, rows }) => {
            &&& names.contains(column)
            &&& opened.read_mode == ParquetReadMode::RowSelection
            &&& row == row_offset
            &&& is_group_of(starts, row_offset, row_group as int)
            &&& rows == opened.row_group_rows@[row_group as int]
            &&& rows <= usize::MAX
            &&& rows <= row_offset - starts[row_group as int] <= usize::MAX
        },
        Err(_) => false,
    }
}

/// Where a blob is read: either way it is the row asked for. `starts` are the first rows of the
/// row groups of the file.
pub fn plan_blob_read(
    opened: &OpenedParquetFile,
    starts: &Vec<u64>,
    row_offset: u64,
    column: &str,
) -> (plan: Result<BlobRead, BlobReadError>)
    requires
        starts@ == group_starts(opened.row_group_rows@),
    ensures
        plans_blob(*opened, row_offset, column@, plan),
{
    proof {
        law_starts_ordered(opened.row_group_rows@);
        assert(opened.row_group_rows@.take(0) =~= Seq::<u64>::empty());
        assert(starts.len() > 0 ==> starts@[0] == 0);
    }
    let located = locate_row_group(starts, row_offset);
    let root: usize = match root_index(&opened.root_names, column) {
        Some(at) => at,
        None => return Err(BlobReadError::ColumnNotFound),
    };
    assert(views(opened.root_names@)[root as int] == column@);
    let (row_group, inner) = match located {
        Some(found) => found,
        None => return Err(BlobReadError::NoRowGroups),
    };
    assert(is_group_of(starts@, row_offset, row_group as int));
    let group_rows: u64 = opened.row_group_rows[row_group];
    if group_rows > usize::MAX as u64 {
        return Err(BlobReadError::GroupTooLarge);
    }
    match opened.read_mode {
        ParquetReadMode::Sequential => Ok(
            BlobRead { row_group, root, target: inner, selection: None },
        ),
        ParquetReadMode::RowSelection => {
            if inner > usize::MAX as u64 {
                return Err(BlobReadError::OffsetTooLarge);
            }
            if inner >= group_rows {
                return Err(
                    BlobReadError::OutsideGroup { row: row_offset, row_group, rows: group_rows },
                );
            }
            let rows = vec![inner];
            let selection = select_rows(&rows, group_rows as usize);
            assert(selected_rows(selection) =~= only_row(group_rows as nat, inner as int)) by {
                assert(rows@[0] == inner);
            }
            proof {
                lemma_only_row(group_rows as nat, inner as int);
            }
            Ok(BlobRead { row_group, root, target: 0, selection: Some(selection) })
        },
    }
}

/// How many rows a selection takes.
pub open spec fn count_selected(selected: Seq<bool>) -> nat
    decreases selected.len(),
{
    if selected.len() == 0 {
        0
    } else {
        count_selected(selected.drop_last()) + if selected.last() {
            1nat
        } else {
            0
        }
    }
}

/// How many rows a plan reads of a row group of so many rows.
pub open spec fn rows_to_read(plan: BlobRead, group_rows: u64) -> nat {
    match plan.selection {
        None => group_rows as nat,
        Some(selection) => count_selected(selected_rows(selection)),
    }
}

/// The row of the file at which a read by a plan stops, where the rows read come in batches of the
/// sizes given; none where the row looked for did not come.
pub open spec fn row_found(starts: Seq<u64>, plan: BlobRead, batches: Seq<u64>) -> Option<int> {
    match found_at(plan.target, batches) {
        None => None,
        Some(position) => Some(
            starts[plan.row_group as int] + match plan.selection {
                None => position as int,
                Some(selection) => nth_selected(selected_rows(selection), position),
            },
        ),
    }
}

proof fn lemma_only_row_counts(rows: nat, row: int)
    ensures
        count_selected(only_row(rows, row)) == if 0 <= row < rows {
            1nat
        } else {
            0
        },
    decreases rows,
{
    if rows > 0 {
        lemma_only_row_counts((rows - 1) as nat, row);
        assert(only_row(rows, row).drop_last() =~= only_row((rows - 1) as nat, row));
    }
}

/// Both ways of reading a blob find the row asked for where the file has it, in whatever batches
/// the rows come, and fail where it does not: no other row is ever taken for it. A column that the
/// file lacks and a row group that cannot be counted here are left out.
pub proof fn law_both_ways_read_the_row(
    opened: OpenedParquetFile,
    row_offset: u64,
    column: Seq<char>,
    plan: Result<BlobRead, BlobReadError>,
    batches: Seq<u64>,
)
    requires
        total(opened.row_group_rows@) <= u64::MAX,
        opened.rows == total(opened.row_group_rows@),
        forall|i: int|
            0 <= i < opened.row_group_rows.len() ==> #[trigger] opened.row_group_rows@[i]
                <= usize::MAX,
        views(opened.root_names@).contains(column),
        plans_blob(opened, row_offset, column, plan),
        plan matches Ok(p) ==> total(batches) == rows_to_read(
            p,
            opened.row_group_rows@[p.row_group as int],
        ),
    ensures
        row_offset < opened.rows ==> (plan matches Ok(p) && row_found(
            group_starts(opened.row_group_rows@),
            p,
            batches,
        ) == Some(row_offset as int)),
        row_offset >= opened.rows ==> (plan matches Ok(p) ==> row_found(
            group_starts(opened.row_group_rows@),
            p,
            batches,
        ) is None),
        opened.read_mode == ParquetReadMode::Sequential && opened.row_group_rows.len() > 0
            ==> plan is Ok,
        opened.read_mode == ParquetReadMode::RowSelection ==> (plan is Ok <==> row_offset
            < opened.rows),
{
    let rows = opened.row_group_rows@;
    let starts = group_starts(rows);
    if rows.len() > 0 {
        assert forall|at: int| #[trigger] is_group_of(starts, row_offset, at) implies (row_offset
            < total(rows) <==> row_offset - starts[at] < rows[at]) by {
            if row_offset < total(rows) {
                law_row_is_in_its_group(rows, row_offset, at);
            } else {
                lemma_group_ends(rows, at);
            }
        }
    }
    match plan {
        Ok(p) => {
            if p.selection is Some {
                lemma_only_row_counts(
                    rows[p.row_group as int] as nat,
                    row_offset - starts[p.row_group as int],
                );
            }
            law_found_where_it_is(p.target, batches);
        },
        Err(_) => {},
    }
}

// ---------------------------------------------------------------------------
// Many blobs.
// ---------------------------------------------------------------------------

/// The order of numbers.
pub open spec fn number_less() -> spec_fn(u64, u64) -> bool {
    |a: u64, b: u64| a < b
}

fn number_before(a: &u64, b: &u64) -> (yes: bool)
    ensures
        yes == number_less()(*a, *b),
{
    *a < *b
}

/// Sorts numbers.
pub fn sort_rows(rows: &Vec<u64>) -> (out: Vec<u64>)
    ensures
        out@ == stable_sort(rows@, number_less()),
        out@.to_multiset() == rows@.to_multiset(),
        in_sequence(out@, number_less()),
{
    let ghost same = |row: u64| row;
    let mut out = rows.clone();
    assert(out@.map_values(same) =~= rows@);
    sort_by::<u64, u64, _>(&mut out, number_before, Ghost(same), Ghost(number_less()));
    proof {
        assert(out@.map_values(same) =~= out@);
        law_sort_keeps_elements(rows@, number_less());
        law_sort_orders(rows@, number_less());
    }
    out
}

/// What is read for many blobs: the rows in order, the column, and the selection.
pub struct BlobBatchPlan {
    pub sorted_rows: Vec<u64>,
    pub root: usize,
    pub selection: RowSelection,
}

/// Whether `rows` holds a number twice.
pub open spec fn has_duplicates(rows: Seq<u64>) -> bool {
    !rows.no_duplicates()
}

/// Whether `last` is the largest of some rows.
pub open spec fn is_largest(rows: Seq<u64>, last: u64) -> bool {
    rows.contains(last) && forall|i: int| 0 <= i < rows.len() ==> #[trigger] rows[i] <= last
}

proof fn lemma_sorted(rows: Seq<u64>, sorted: Seq<u64>)
    requires
        sorted.to_multiset() == rows.to_multiset(),
        in_sequence(sorted, number_less()),
    ensures
        sorted.len() == rows.len(),
        forall|x: u64| sorted.contains(x) <==> rows.contains(x),
        rows.no_duplicates() <==> sorted.no_duplicates(),
        sorted.no_duplicates() ==> increasing(sorted),
        sorted.len() > 0 ==> is_largest(rows, sorted.last()),
{
    broadcast use vstd::seq_lib::group_to_multiset_ensures;

    sorted.to_multiset_ensures();
    rows.to_multiset_ensures();
    assert forall|x: u64| sorted.contains(x) <==> rows.contains(x) by {
        assert(sorted.contains(x) <==> sorted.to_multiset().count(x) > 0);
        assert(rows.contains(x) <==> rows.to_multiset().count(x) > 0);
    }
    if rows.no_duplicates() {
        rows.lemma_multiset_has_no_duplicates();
        sorted.lemma_multiset_has_no_duplicates_conv();
    }
    if sorted.no_duplicates() {
        sorted.lemma_multiset_has_no_duplicates();
        rows.lemma_multiset_has_no_duplicates_conv();
        assert forall|i: int, j: int| 0 <= i < j < sorted.len() implies sorted[i] < sorted[j] by {
            assert(!number_less()(sorted[j], sorted[i]));
        }
    }
    if sorted.len() > 0 {
        let last = sorted.last();
        assert(sorted.contains(last));
        assert forall|i: int| 0 <= i < rows.len() implies #[trigger] rows[i] <= last by {
            assert(rows.contains(rows[i]));
            let k = choose|k: int| 0 <= k < sorted.len() && sorted[k] == rows[i];
            if k < sorted.len() - 1 {
                assert(!number_less()(sorted[sorted.len() - 1], sorted[k]));
            }
        }
    }
}

/// What is read for many blobs. The rows have to be different rows of the file, and the file has
/// to be open for reading by selection.
pub fn plan_blob_batch(
    opened: &OpenedParquetFile,
    row_offsets: &Vec<u64>,
    column: &str,
) -> (plan: Result<BlobBatchPlan, BlobReadError>)
    ensures
        match plan {
            Ok(p) => {
                &&& opened.read_mode == ParquetReadMode::RowSelection
                &&& row_offsets.len() > 0
                &&& opened.rows <= usize::MAX
                &&& !has_duplicates(row_offsets@)
                &&& forall|i: int| 0 <= i < row_offsets.len() ==> row_offsets@[i] < opened.rows
                &&& is_root(views(opened.root_names@), column@, p.root as int)
                &&& p.sorted_rows@ == stable_sort(row_offsets@, number_less())
                &&& increasing(p.sorted_rows@)
                &&& p.sorted_rows@.to_multiset() == row_offsets@.to_multiset()
                &&& selected_rows(p.selection) == Seq::new(
                    opened.rows as nat,
                    |r: int| has_row(row_offsets@, r),
                )
            },
            Err(BlobReadError::NotRowSelection) => opened.read_mode
                != ParquetReadMode::RowSelection,
            Err(BlobReadError::NoRows) => opened.read_mode == ParquetReadMode::RowSelection
                && row_offsets.len() == 0,
            Err(BlobReadError::TooManyRows) => opened.read_mode == ParquetReadMode::RowSelection
                && row_offsets.len() > 0 && opened.rows > usize::MAX,
            Err(BlobReadError::ColumnNotFound) => opened.read_mode == ParquetReadMode::RowSelection
                && row_offsets.len() > 0 && opened.rows <= usize::MAX && !views(
                opened.root_names@,
            ).contains(column@),
            Err(BlobReadError::DuplicateRows) => opened.read_mode == ParquetReadMode::RowSelection
                && row_offsets.len() > 0 && opened.rows <= usize::MAX && views(
                opened.root_names@,
            ).contains(column@) && has_duplicates(row_offsets@),
            Err(BlobReadError::OutOfRange { row, rows }) => opened.read_mode
                == ParquetReadMode::RowSelection && opened.rows <= usize::MAX && views(
                opened.root_names@,
            ).contains(column@) && !has_duplicates(row_offsets@) && is_largest(row_offsets@, row)
                && rows == opened.rows && row >= rows,
            Err(_) => false,
        },
{
    if opened.read_mode != ParquetReadMode::RowSelection {
        return Err(BlobReadError::NotRowSelection);
    }
    if row_offsets.len() == 0 {
        return Err(BlobReadError::NoRows);
    }
    if opened.rows > usize::MAX as u64 {
        return Err(BlobReadError::TooManyRows);
    }
    let root: usize = match root_index(&opened.root_names, column) {
        Some(at) => at,
        None => return Err(BlobReadError::ColumnNotFound),
    };
    assert(views(opened.root_names@)[root as int] == column@);
    let sorted_rows = sort_rows(row_offsets);
    proof {
        lemma_sorted(row_offsets@, sorted_rows@);
    }
    let mut i: usize = 1;
    while i < sorted_rows.len()
        invariant
            1 <= i <= sorted_rows.len(),
            in_sequence(sorted_rows@, number_less()),
            forall|k: int| 0 < k < i ==> #[trigger] sorted_rows@[k] != sorted_rows@[k - 1],
            row_offsets@.no_duplicates() <==> sorted_rows@.no_duplicates(),
            opened.read_mode == ParquetReadMode::RowSelection,
            row_offsets.len() > 0,
            opened.rows <= usize::MAX,
            views(opened.root_names@).contains(column@),
        decreases sorted_rows.len() - i,
    {
        if sorted_rows[i] == sorted_rows[i - 1] {
            return Err(BlobReadError::DuplicateRows);
        }
        i += 1;
    }
    proof {
        assert forall|a: int, b: int| 0 <= a < b < sorted_rows@.len() implies sorted_rows@[a]
            < sorted_rows@[b] by {
            lemma_steps_increase(sorted_rows@, a, b);
        }
        assert(sorted_rows@.no_duplicates());
    }
    let last: u64 = sorted_rows[sorted_rows.len() - 1];
    if last >= opened.rows {
        return Err(BlobReadError::OutOfRange { row: last, rows: opened.rows });
    }
    proof {
        assert forall|k: int| 0 <= k < sorted_rows@.len() implies sorted_rows@[k] < opened.rows by {
            assert(sorted_rows@.contains(sorted_rows@[k]));
            assert(row_offsets@.contains(sorted_rows@[k]));
            let m = choose|m: int| 0 <= m < row_offsets@.len() && row_offsets@[m] == sorted_rows@[k];
            assert(row_offsets@[m] <= last);
        }
    }
    let selection = select_rows(&sorted_rows, opened.rows as usize);
    proof {
        assert forall|r: int| 0 <= r < opened.rows implies has_row(sorted_rows@, r) == has_row(
            row_offsets@,
            r,
        ) by {
            let x = r as u64;
            assert(sorted_rows@.contains(x) <==> row_offsets@.contains(x));
            if has_row(sorted_rows@, r) {
                let i = choose|i: int| 0 <= i < sorted_rows@.len() && #[trigger] sorted_rows@[i] == r;
                assert(sorted_rows@[i] == x);
                let j = choose|j: int| 0 <= j < row_offsets@.len() && row_offsets@[j] == x;
                assert(row_offsets@[j] == r);
            }
            if has_row(row_offsets@, r) {
                let i = choose|i: int| 0 <= i < row_offsets@.len() && #[trigger] row_offsets@[i] == r;
                assert(row_offsets@[i] == x);
                let j = choose|j: int| 0 <= j < sorted_rows@.len() && sorted_rows@[j] == x;
                assert(sorted_rows@[j] == r);
            }
        }
        assert(selected_rows(selection) =~= Seq::new(
            opened.rows as nat,
            |r: int| has_row(row_offsets@, r),
        ));
    }
    Ok(BlobBatchPlan { sorted_rows, root, selection })
}

proof fn lemma_steps_increase(s: Seq<u64>, a: int, b: int)
    requires
        0 <= a < b < s.len(),
        in_sequence(s, number_less()),
        forall|k: int| 0 < k < s.len() ==> #[trigger] s[k] != s[k - 1],
    ensures
        s[a] < s[b],
    decreases b - a,
{
    assert(!number_less()(s[b], s[b - 1]));
    assert(s[b] != s[b - 1]);
    if a < b - 1 {
        lemma_steps_increase(s, a, b - 1);
    }
}

// ---------------------------------------------------------------------------
// What was read.
// ---------------------------------------------------------------------------

/// What a reading of many blobs gave.
#[derive(Debug, Clone, Copy, PartialEq, Eq, Structural)]
pub struct BlobBatchRead {
    pub selected_blobs: usize,
    pub materialized_blobs: usize,
    pub total_bytes: usize,
}

/// The length of a blob; an absent one has none.
pub open spec fn length_of(len: Option<usize>) -> nat {
    match len {
        Some(n) => n as nat,
        None => 0,
    }
}

/// The bytes of some blobs.
pub open spec fn sum_lengths(lengths: Seq<Option<usize>>) -> nat
    decreases lengths.len(),
{
    if lengths.len() == 0 {
        0
    } else {
        sum_lengths(lengths.drop_last()) + length_of(lengths.last())
    }
}

/// How many blobs are there.
pub open spec fn count_present(lengths: Seq<Option<usize>>) -> nat
    decreases lengths.len(),
{
    if lengths.len() == 0 {
        0
    } else {
        count_present(lengths.drop_last()) + if lengths.last() is Some {
            1nat
        } else {
            0
        }
    }
}

/// The position of a row.
pub open spec fn row_position(sorted: Seq<u64>, row: u64) -> int {
    choose|i: int| 0 <= i < sorted.len() && sorted[i] == row
}

/// The lengths in the order in which the rows were asked for.
pub open spec fn reordered(
    row_offsets: Seq<u64>,
    sorted: Seq<u64>,
    lengths: Seq<Option<usize>>,
) -> Seq<Option<usize>> {
    Seq::new(row_offsets.len(), |i: int| lengths[row_position(sorted, row_offsets[i])])
}

proof fn lemma_sum_fold(rows: Seq<u64>, g: spec_fn(u64) -> Option<usize>, v: nat)
    ensures
        rows.fold_right(|r: u64, acc: nat| acc + length_of(g(r)), v) == v + sum_lengths(
            rows.map_values(g),
        ),
    decreases rows.len(),
{
    let f = |r: u64, acc: nat| acc + length_of(g(r));
    if rows.len() > 0 {
        lemma_sum_fold(rows.drop_last(), g, f(rows.last(), v));
        assert(rows.map_values(g).drop_last() =~= rows.drop_last().map_values(g));
    } else {
        assert(rows.map_values(g) =~= Seq::<Option<usize>>::empty());
    }
}

proof fn lemma_count_fold(rows: Seq<u64>, g: spec_fn(u64) -> Option<usize>, v: nat)
    ensures
        rows.fold_right(
            |r: u64, acc: nat|
                acc + if g(r) is Some {
                    1nat
                } else {
                    0
                },
            v,
        ) == v + count_present(rows.map_values(g)),
    decreases rows.len(),
{
    let f = |r: u64, acc: nat|
        acc + if g(r) is Some {
            1nat
        } else {
            0
        };
    if rows.len() > 0 {
        lemma_count_fold(rows.drop_last(), g, f(rows.last(), v));
        assert(rows.map_values(g).drop_last() =~= rows.drop_last().map_values(g));
    } else {
        assert(rows.map_values(g) =~= Seq::<Option<usize>>::empty());
    }
}

/// The order in which blobs are handed out changes neither how many there are nor their bytes.
pub proof fn law_order_does_not_matter(
    row_offsets: Seq<u64>,
    sorted: Seq<u64>,
    lengths: Seq<Option<usize>>,
)
    requires
        sorted.to_multiset() == row_offsets.to_multiset(),
        increasing(sorted),
        lengths.len() == sorted.len(),
    ensures
        sum_lengths(reordered(row_offsets, sorted, lengths)) == sum_lengths(lengths),
        count_present(reordered(row_offsets, sorted, lengths)) == count_present(lengths),
{
    let g = |r: u64| lengths[row_position(sorted, r)];
    assert forall|i: int| 0 <= i < sorted.len() implies row_position(sorted, sorted[i]) == i by {
        let k = row_position(sorted, sorted[i]);
        assert(0 <= k < sorted.len() && sorted[k] == sorted[i]);
        if k < i {
            assert(sorted[k] < sorted[i]);
        } else if i < k {
            assert(sorted[i] < sorted[k]);
        }
    }
    assert(sorted.map_values(g) =~= lengths);
    assert(row_offsets.map_values(g) =~= reordered(row_offsets, sorted, lengths));
    let f = |r: u64, acc: nat| acc + length_of(g(r));
    assert(commutative_foldr(f));
    lemma_fold_right_permutation(sorted, row_offsets, f, 0nat);
    lemma_sum_fold(sorted, g, 0);
    lemma_sum_fold(row_offsets, g, 0);
    let h = |r: u64, acc: nat|
        acc + if g(r) is Some {
            1nat
        } else {
            0
        };
    assert(commutative_foldr(h));
    lemma_fold_right_permutation(sorted, row_offsets, h, 0nat);
    lemma_count_fold(sorted, g, 0);
    lemma_count_fold(row_offsets, g, 0);
}

fn position_of(sorted: &Vec<u64>, row: u64) -> (at: usize)
    requires
        increasing(sorted@),
        sorted@.contains(row),
    ensures
        at == row_position(sorted@, row),
        at < sorted.len(),
{
    let ghost wanted = row_position(sorted@, row);
    assert(0 <= wanted < sorted@.len() && sorted@[wanted] == row);
    let mut lo: usize = 0;
    let mut hi: usize = sorted.len();
    while lo + 1 < hi
        invariant
            lo <= wanted < hi <= sorted.len(),
            increasing(sorted@),
            0 <= wanted < sorted.len(),
            sorted@[wanted] == row,
        decreases hi - lo,
    {
        let mid: usize = lo + (hi - lo) / 2;
        if sorted[mid] <= row {
            proof {
                if mid > wanted {
                    assert(sorted@[wanted] < sorted@[mid as int]);
                }
            }
            lo = mid;
        } else {
            proof {
                if mid < wanted {
                    assert(sorted@[mid as int] < sorted@[wanted]);
                }
            }
            hi = mid;
        }
    }
    lo
}

/// The lengths in the order in which the rows were asked for.
pub fn order_lengths(
    row_offsets: &Vec<u64>,
    sorted: &Vec<u64>,
    lengths: &Vec<Option<usize>>,
) -> (out: Vec<Option<usize>>)
    requires
        sorted@.to_multiset() == row_offsets@.to_multiset(),
        increasing(sorted@),
        lengths.len() == sorted.len(),
    ensures
        out@ == reordered(row_offsets@, sorted@, lengths@),
{
    let mut out: Vec<Option<usize>> = Vec::new();
    let mut i: usize = 0;
    while i < row_offsets.len()
        invariant
            i <= row_offsets.len(),
            sorted@.to_multiset() == row_offsets@.to_multiset(),
            increasing(sorted@),
            lengths.len() == sorted.len(),
            out@ == reordered(row_offsets@, sorted@, lengths@).take(i as int),
        decreases row_offsets.len() - i,
    {
        let row: u64 = row_offsets[i];
        proof {
            broadcast use vstd::seq_lib::group_to_multiset_ensures;

            sorted@.to_multiset_ensures();
            row_offsets@.to_multiset_ensures();
            assert(row_offsets@.contains(row));
            assert(row_offsets@.to_multiset().count(row) > 0);
        }
        let at: usize = position_of(sorted, row);
        out.push(lengths[at]);
        i += 1;
        assert(out@ =~= reordered(row_offsets@, sorted@, lengths@).take(i as int));
    }
    assert(out@ =~= reordered(row_offsets@, sorted@, lengths@));
    out
}

fn count_and_sum(lengths: &Vec<Option<usize>>) -> (sums: (usize, usize))
    requires
        sum_lengths(lengths@) <= usize::MAX,
    ensures
        sums.0 == count_present(lengths@),
        sums.1 == sum_lengths(lengths@),
{
    let mut present: usize = 0;
    let mut bytes: usize = 0;
    let mut i: usize = 0;
    assert(lengths@.take(0) =~= Seq::<Option<usize>>::empty());
    while i < lengths.len()
        invariant
            i <= lengths.len(),
            sum_lengths(lengths@) <= usize::MAX,
            present <= i,
            present == count_present(lengths@.take(i as int)),
            bytes == sum_lengths(lengths@.take(i as int)),
        decreases lengths.len() - i,
    {
        proof {
            assert(lengths@.take(i as int + 1).drop_last() =~= lengths@.take(i as int));
            lemma_sum_prefix(lengths@, i as int + 1);
        }
        match lengths[i] {
            Some(n) => {
                present += 1;
                bytes += n;
            },
            None => {},
        }
        i += 1;
    }
    assert(lengths@.take(lengths@.len() as int) =~= lengths@);
    (present, bytes)
}

proof fn lemma_sum_prefix(lengths: Seq<Option<usize>>, i: int)
    requires
        0 <= i <= lengths.len(),
    ensures
        sum_lengths(lengths.take(i)) <= sum_lengths(lengths),
    decreases lengths.len() - i,
{
    if i < lengths.len() {
        lemma_sum_prefix(lengths, i + 1);
        assert(lengths.take(i + 1).drop_last() =~= lengths.take(i));
    } else {
        assert(lengths.take(i) =~= lengths);
    }
}

/// Sums up what was read: `lengths` are those of the sorted rows, one each.
pub fn summarize_blobs(
    row_offsets: &Vec<u64>,
    sorted_rows: &Vec<u64>,
    lengths: Vec<Option<usize>>,
    preserve_order: bool,
) -> (read: Result<BlobBatchRead, BlobReadError>)
    requires
        sorted_rows@.to_multiset() == row_offsets@.to_multiset(),
        increasing(sorted_rows@),
        sum_lengths(lengths@) <= usize::MAX,
    ensures
        match read {
            Ok(r) => lengths.len() == sorted_rows.len() && r.selected_blobs == row_offsets.len()
                && r.materialized_blobs == count_present(lengths@) && r.total_bytes == sum_lengths(
                lengths@,
            ),
            Err(BlobReadError::WrongCount { got, wanted }) => got == lengths.len() && wanted
                == sorted_rows.len() && got != wanted,
            Err(_) => false,
        },
{
    if lengths.len() != sorted_rows.len() {
        return Err(
            BlobReadError::WrongCount { got: lengths.len(), wanted: sorted_rows.len() },
        );
    }
    proof {
        law_order_does_not_matter(row_offsets@, sorted_rows@, lengths@);
    }
    let ordered = if preserve_order {
        order_lengths(row_offsets, sorted_rows, &lengths)
    } else {
        lengths
    };
    let (materialized_blobs, total_bytes) = count_and_sum(&ordered);
    Ok(
        BlobBatchRead {
            selected_blobs: row_offsets.len(),
            materialized_blobs,
            total_bytes,
        },
    )
}

} // verus!
