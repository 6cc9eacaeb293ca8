//! What a scan reads: its columns and its filter.
use vstd::prelude::*;

use crate::args::{blob_column_of, blob_columns, ScanModeArg};
use crate::query::Filter;
use crate::schemas::BENCH_SMALL_U64;
use crate::text::{lemma_views_push, list_items, opt_view, parse_list, text_eq, views};
use crate::workload::DatasetName;

verus! {

/// The columns that a user lists: separated by commas, without blanks around them or empty names.
pub fn parse_projection(projection: &Option<String>) -> (columns: Option<Vec<String>>)
    ensures
        match opt_view(*projection) {
            Some(list) => columns matches Some(c) && views(c@) == list_items(list),
            None => columns is None,
        },
{
    match projection {
        Some(list) => Some(parse_list(list.as_str())),
        None => None,
    }
}

/// The bound below which about one in `denom` of all numbers lies.
pub open spec fn threshold_of(denom: u64) -> u64 {
    if denom <= 1 {
        u64::MAX
    } else {
        u64::MAX / denom
    }
}

/// The bound below which about one in `denom` of all numbers lies.
pub fn selectivity_threshold_u64(denom: u64) -> (threshold: u64)
    ensures
        threshold == threshold_of(denom),
{
    if denom <= 1 {
        return u64::MAX;
    }
    u64::MAX / denom
}

/// A larger denominator selects no more rows.
pub proof fn law_threshold_falls(a: u64, b: u64)
    requires
        a <= b,
    ensures
        threshold_of(b) <= threshold_of(a),
{
    if 1 < a {
        assert(u64::MAX as int / b as int <= u64::MAX as int / a as int) by (nonlinear_arith)
            requires
                1 < a <= b,
        ;
    } else if 1 < b {
        assert(u64::MAX as int / b as int <= u64::MAX as int) by (nonlinear_arith)
            requires
                1 < b,
        ;
    }
}

/// The bound of the filter of a scan, where it has one.
pub open spec fn scan_bound(mode: ScanModeArg) -> Option<u64> {
    match mode {
        ScanModeArg::Full => None,
        ScanModeArg::Project => None,
        ScanModeArg::FilterLow => Some(threshold_of(100)),
        ScanModeArg::FilterHigh => Some(threshold_of(2)),
    }
}

/// The bound of the filter of a scan, where it has one.
pub fn scan_threshold(mode: ScanModeArg) -> (threshold: Option<u64>)
    ensures
        threshold == scan_bound(mode),
{
    match mode {
        ScanModeArg::Full => None,
        ScanModeArg::Project => None,
        ScanModeArg::FilterLow => Some(selectivity_threshold_u64(100)),
        ScanModeArg::FilterHigh => Some(selectivity_threshold_u64(2)),
    }
}

/// The column that the filter of a scan tests and its bound, where it has one.
pub open spec fn filter_of(mode: ScanModeArg) -> Option<(Seq<char>, u64)> {
    match scan_bound(mode) {
        Some(bound) => Some((BENCH_SMALL_U64@, bound)),
        None => None,
    }
}

/// The filter of a scan, where it has one.
pub fn scan_filter(mode: ScanModeArg) -> (filter: Option<Filter>)
    ensures
        filter_of(mode) == match filter {
            Some(f) => Some((f.column_name(), f.bound())),
            None => None,
        },
{
    match scan_threshold(mode) {
        Some(bound) => Some(Filter::lt_u64(BENCH_SMALL_U64.to_owned(), bound)),
        None => None,
    }
}

/// The columns of a scan.
#[derive(Debug, Clone, PartialEq, Eq)]
pub enum ScanColumns {
    /// These columns.
    These(Vec<String>),
    /// All columns of the dataset but those that hold blobs.
    AllButBlobs,
}

impl View for ScanColumns {
    type V = Option<Seq<Seq<char>>>;

    /// The columns, where they are listed.
    open spec fn view(&self) -> Option<Seq<Seq<char>>> {
        match *self {
            ScanColumns::These(columns) => Some(views(columns@)),
            ScanColumns::AllButBlobs => None,
        }
    }
}

/// The columns that a scan reads, where they are listed: those that the user lists, else none for
/// a full scan, and the small number for any other.
pub open spec fn columns_read(
    mode: ScanModeArg,
    projection: Option<Seq<char>>,
) -> Option<Seq<Seq<char>>> {
    match projection {
        Some(list) => Some(list_items(list)),
        None => match mode {
            ScanModeArg::Full => None,
            _ => Some(seq![BENCH_SMALL_U64@]),
        },
    }
}

/// The columns that a scan reads.
pub fn scan_columns(mode: ScanModeArg, projection: &Option<String>) -> (columns: ScanColumns)
    ensures
        columns@ == columns_read(mode, opt_view(*projection)),
{
    match parse_projection(projection) {
        Some(listed) => ScanColumns::These(listed),
        None => match mode {
            ScanModeArg::Full => ScanColumns::AllButBlobs,
            _ => ScanColumns::These(small_number_only()),
        },
    }
}

/// The columns that a random take reads: those that the user lists, else the small number.
pub fn take_columns(projection: &Option<String>) -> (columns: Vec<String>)
    ensures
        views(columns@) == match opt_view(*projection) {
            Some(list) => list_items(list),
            None => seq![BENCH_SMALL_U64@],
        },
{
    match parse_projection(projection) {
        Some(listed) => listed,
        None => small_number_only(),
    }
}

fn small_number_only() -> (columns: Vec<String>)
    ensures
        views(columns@) == seq![BENCH_SMALL_U64@],
{
    let columns = vec![BENCH_SMALL_U64.to_owned()];
    assert(views(columns@) =~= seq![BENCH_SMALL_U64@]);
    columns
}

/// Where the user lists no columns, a scan that filters reads the column that its filter tests.
pub proof fn law_filter_column_is_read(mode: ScanModeArg)
    requires
        filter_of(mode) is Some,
    ensures
        columns_read(mode, None) matches Some(columns) && columns.contains((filter_of(mode)->0).0),
{
    assert(columns_read(mode, None)->0[0] == BENCH_SMALL_U64@);
}

/// Whether a column of a dataset holds no blobs.
pub open spec fn holds_no_blobs(dataset: DatasetName) -> spec_fn(Seq<char>) -> bool {
    |name: Seq<char>| blob_column_of(dataset) != Some(name)
}

/// The columns of a dataset but those that hold blobs, in order.
pub fn full_projection(dataset: DatasetName, names: &Vec<String>) -> (columns: Vec<String>)
    ensures
        views(columns@) == views(names@).filter(holds_no_blobs(dataset)),
{
    let blobs = blob_columns(dataset);
    let mut columns: Vec<String> = Vec::new();
    let ghost all = views(names@);
    let ghost keep = holds_no_blobs(dataset);
    let mut i: usize = 0;
    proof {
        reveal(Seq::filter);
        assert(views(columns@) =~= all.take(0).filter(keep));
    }
    while i < names.len()
        invariant
            i <= names.len(),
            all == views(names@),
            keep == holds_no_blobs(dataset),
            match blob_column_of(dataset) {
                Some(c) => blobs.len() == 1 && blobs@[0]@ == c,
                None => blobs.len() == 0,
            },
            views(columns@) == all.take(i as int).filter(keep),
        decreases names.len() - i,
    {
        let name = names[i].clone();
        let is_blob = blobs.len() > 0 && text_eq(blobs[0], name.as_str());
        proof {
            reveal(Seq::filter);
            let next = all.take(i + 1);
            assert(next.drop_last() =~= all.take(i as int));
            assert(next.last() == name@);
            assert(keep(name@) == !is_blob);
        }
        if !is_blob {
            proof {
                lemma_views_push(columns@, name);
            }
            columns.push(name);
        }
        i += 1;
    }
    assert(all.take(i as int) =~= all);
    columns
}

/// A full scan reads every column of the dataset that holds no blobs, and no other.
pub proof fn law_full_scan_skips_blobs(
    dataset: DatasetName,
    names: Seq<Seq<char>>,
    name: Seq<char>,
)
    ensures
        names.filter(holds_no_blobs(dataset)).contains(name) <==> names.contains(name)
            && blob_column_of(dataset) != Some(name),
{
    let keep = holds_no_blobs(dataset);
    broadcast use vstd::seq_lib::group_filter_ensures;

    if names.contains(name) && keep(name) {
        let i = choose|i: int| 0 <= i < names.len() && names[i] == name;
        assert(names.filter(keep).contains(names[i]));
    }
    if names.filter(keep).contains(name) {
        let i = choose|i: int| 0 <= i < names.filter(keep).len() && names.filter(keep)[i] == name;
        names.lemma_filter_contains_rev(keep, name);
        assert(keep(names.filter(keep)[i]));
    }
}

} // verus!
