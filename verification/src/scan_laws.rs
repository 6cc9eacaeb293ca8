//! What holds of what a scan reads, and of the limits of a read.
use vstd::prelude::*;

use crate::args::ScanModeArg;
use crate::lance::{by_id, capped_limit, file_limit, index_name_of, planned_indices};
use crate::measure::{row_bound, sample_of};
use crate::scans::{columns_read, filter_of, scan_bound, threshold_of};
use crate::sorting::{
    compares_ranks, law_sort_keeps_elements, law_sort_orders, numbers_below, stable_sort,
};
use crate::text::list_items;

verus! {

// ---------------------------------------------------------------------------
// Filters and columns.
// ---------------------------------------------------------------------------

/// A threshold takes one part in `denom` of all numbers: so many parts as large as it fit into the
/// largest number, and not of one more.
pub proof fn law_thresholds_take_their_share(denom: u64)
    requires
        denom > 0,
    ensures
        denom * threshold_of(denom) <= u64::MAX,
        denom * (threshold_of(denom) + 1) > u64::MAX,
{
    vstd::arithmetic::div_mod::lemma_fundamental_div_mod(u64::MAX as int, denom as int);
    vstd::arithmetic::div_mod::lemma_mod_bound(u64::MAX as int, denom as int);
    let t = threshold_of(denom);
    if denom > 1 {
        assert(denom * (t + 1) == denom * t + denom) by (nonlinear_arith);
    } else {
        assert(denom * t == t && denom * (t + 1) == t + 1) by (nonlinear_arith)
            requires
                denom == 1,
        ;
    }
}

/// A scan with the low filter takes one row in a hundred, one with the high filter one in two, and
/// both by the column of spread numbers; other scans take every row.
pub proof fn law_filtered_scans_take_their_share(mode: ScanModeArg)
    ensures
        filter_of(mode) is Some <==> mode == ScanModeArg::FilterLow || mode
            == ScanModeArg::FilterHigh,
        filter_of(mode) is Some ==> (filter_of(mode)->0).0 == "bench_small_u64"@ && scan_bound(mode)
            == Some((filter_of(mode)->0).1),
        mode == ScanModeArg::FilterLow ==> 100 * (filter_of(mode)->0).1 <= u64::MAX < 100 * ((
        filter_of(mode)->0).1 + 1),
        mode == ScanModeArg::FilterHigh ==> 2 * (filter_of(mode)->0).1 <= u64::MAX < 2 * ((
        filter_of(mode)->0).1 + 1),
        filter_of(mode) is None ==> scan_bound(mode) is None,
{
    law_thresholds_take_their_share(100);
    law_thresholds_take_their_share(2);
}

/// The columns that a user lists are read, whatever the scan. Where none are listed a full scan
/// reads all but blobs and any other scan the column of spread numbers alone.
pub proof fn law_listed_columns_are_read(mode: ScanModeArg, list: Seq<char>)
    ensures
        columns_read(mode, Some(list)) == Some(list_items(list)),
        columns_read(mode, None) is None <==> mode == ScanModeArg::Full,
        mode != ScanModeArg::Full ==> columns_read(mode, None) == Some(seq!["bench_small_u64"@]),
{
}

// ---------------------------------------------------------------------------
// Limits.
// ---------------------------------------------------------------------------

/// A limit that Lance can take is handed on as it is; a larger one as the largest.
pub proof fn law_limits_are_handed_on(n: u64)
    ensures
        capped_limit(None) is None,
        capped_limit(Some(n)) is Some,
        n <= i64::MAX ==> capped_limit(Some(n))->0 == n,
        n > i64::MAX ==> capped_limit(Some(n))->0 == i64::MAX,
{
}

/// A limit on the size of files holds as it was asked for. Where none was, a dataset that goes into
/// one file has the largest, unless it is limited the other way.
pub proof fn law_file_limits_hold(one_file: bool, asked: usize, other: Option<usize>)
    ensures
        file_limit(one_file, Some(asked), other) == Some(asked),
        file_limit(true, None, None) == Some(usize::MAX),
        file_limit(false, None, other) is None,
        other is Some ==> file_limit(one_file, None, other) is None,
{
}

/// A sample has the whole microseconds of a duration.
pub proof fn law_samples_are_whole_microseconds(nanos: nat)
    requires
        nanos < 1000 * u64::MAX,
    ensures
        1000 * sample_of(nanos) <= nanos < 1000 * (sample_of(nanos) + 1),
{
}

/// Random rows are drawn below the number of rows; of an empty dataset below one.
pub proof fn law_rows_are_drawn_below_the_count(row_count: u64)
    ensures
        row_bound(row_count) > 0,
        row_count > 0 ==> row_bound(row_count) == row_count,
        row_count == 0 ==> row_bound(row_count) == 1,
{
}

// ---------------------------------------------------------------------------
// Fragments and indices.
// ---------------------------------------------------------------------------

/// Fragments are read by their numbers, each once.
pub proof fn law_fragments_are_read_by_number(ids: Seq<u64>, i: int, j: int)
    requires
        ids.len() <= usize::MAX,
        0 <= i < j < stable_sort(numbers_below(ids.len()), by_id(ids)).len(),
    ensures
        ({
            let order = stable_sort(numbers_below(ids.len()), by_id(ids));
            &&& order.len() == ids.len()
            &&& order[i] != order[j]
            &&& order[i] < ids.len()
            &&& order[j] < ids.len()
            &&& ids[order[i] as int] <= ids[order[j] as int]
        }),
{
    let all = numbers_below(ids.len());
    let less = by_id(ids);
    let order = stable_sort(all, less);
    law_sort_keeps_elements(all, less);
    assert(compares_ranks(less)) by {
        assert forall|a: usize, b: usize, c: usize|
            !#[trigger] less(a, b) && !#[trigger] less(b, c) implies !less(a, c) by {}
        assert forall|a: usize, b: usize| #[trigger] less(a, b) implies !less(b, a) by {}
    }
    law_sort_orders(all, less);
    all.to_multiset_ensures();
    order.to_multiset_ensures();
    assert(all.no_duplicates());
    all.lemma_multiset_has_no_duplicates();
    order.lemma_multiset_has_no_duplicates_conv();
    assert forall|k: int| 0 <= k < order.len() implies #[trigger] order[k] < ids.len() by {
        assert(order.contains(order[k]));
        assert(order.to_multiset().count(order[k]) > 0);
        assert(all.contains(order[k]));
    }
    assert(!less(order[j], order[i]));
}

/// Whether a column is indexed, or planned to be.
pub open spec fn will_be_indexed(
    column: Seq<char>,
    existing: Seq<Seq<char>>,
    planned: Seq<Seq<char>>,
) -> bool {
    existing.contains(index_name_of(column)) || planned.contains(column)
}

/// A plan leaves out no column: where none is missing, every column has its index already or gets
/// one. A column is missing where the schema lacks one, and then all before it are planned.
pub proof fn law_index_plans_are_complete(
    columns: Seq<Seq<char>>,
    fields: Seq<Seq<char>>,
    existing: Seq<Seq<char>>,
)
    ensures
        ({
            let (planned, missing) = planned_indices(columns, fields, existing);
            &&& missing is None ==> forall|k: int|
                0 <= k < columns.len() ==> fields.contains(#[trigger] columns[k])
                    && will_be_indexed(columns[k], existing, planned)
            &&& missing matches Some(column) ==> exists|at: int|
                {
                    &&& 0 <= at < columns.len()
                    &&& #[trigger] columns[at] == column
                    &&& !fields.contains(column)
                    &&& forall|k: int|
                        0 <= k < at ==> fields.contains(#[trigger] columns[k]) && will_be_indexed(
                            columns[k],
                            existing,
                            planned,
                        )
                }
        }),
    decreases columns.len(),
{
    if columns.len() > 0 {
        let front = columns.drop_last();
        let last = columns.last();
        law_index_plans_are_complete(front, fields, existing);
        let (before, lost) = planned_indices(front, fields, existing);
        let (planned, missing) = planned_indices(columns, fields, existing);
        assert forall|c: Seq<char>| before.contains(c) implies #[trigger] planned.contains(c) by {
            let k = choose|k: int| 0 <= k < before.len() && before[k] == c;
            assert(planned[k] == c);
        }
        assert forall|k: int| 0 <= k < front.len() implies #[trigger] columns[k] == front[k] by {}
        if lost is Some {
            let at = choose|at: int|
                {
                    &&& 0 <= at < front.len()
                    &&& #[trigger] front[at] == lost->0
                    &&& !fields.contains(lost->0)
                    &&& forall|k: int|
                        0 <= k < at ==> fields.contains(#[trigger] front[k]) && will_be_indexed(
                            front[k],
                            existing,
                            before,
                        )
                };
            assert(columns[at] == lost->0);
        } else if !fields.contains(last) {
            assert(columns[columns.len() - 1] == last);
        } else if !existing.contains(index_name_of(last)) {
            assert(planned[planned.len() - 1] == last);
            assert(planned.contains(last));
        }
    }
}

/// The index of a column is named after it: different columns have different indices.
pub proof fn law_indices_are_named_apart(a: Seq<char>, b: Seq<char>)
    ensures
        index_name_of(a) == index_name_of(b) ==> a == b,
        index_name_of(a).take(a.len() as int) == a,
        index_name_of(a).skip(a.len() as int) == "_btree"@,
{
    reveal_strlit("_btree");
    assert(index_name_of(a).take(a.len() as int) =~= a);
    assert(index_name_of(a).skip(a.len() as int) =~= "_btree"@);
    assert(index_name_of(b).take(b.len() as int) =~= b);
}

} // verus!
