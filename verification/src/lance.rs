//! What the Lance engine is told to do.
use vstd::prelude::*;

use crate::args::{dataset_named, write_mode_name, write_mode_word, DatasetArg, LanceWriteModeArg};
use crate::measure::at_least_one;
use crate::metrics::{LatencySummary, Timing};
use crate::numbers::{number_up_to, parse_usize};
use crate::query::Filter;
use crate::sorting::{count_up, numbers_below, sort_by, stable_sort};
use crate::text::{
    clone_opt, lemma_views_push, list_contains, list_items, opt_view, parse_list, views,
};
use crate::workload::DatasetName;

verus! {

/// The revision of Lance that the engine is built on.
pub const LANCE_DEP_VERSION: &'static str = "09174bc";

/// How many rows a scan asks for at a time.
pub const FILE_SCAN_BATCH_SIZE: u32 = 8192;

/// The Lance engine.
pub struct LanceEngine;

impl LanceEngine {
    /// The engine.
    pub fn new() -> (engine: LanceEngine)
        ensures
            engine == LanceEngine,
    {
        LanceEngine
    }
}

/// How many partitions a scan runs on: none given means one, zero means the engine's own choice,
/// and what is no number means one.
pub fn bench_target_partition(setting: &Option<String>) -> (partitions: Option<usize>)
    ensures
        partitions == match opt_view(*setting) {
            Some(raw) => match number_up_to(raw, usize::MAX as nat) {
                Some(n) => if n == 0 {
                    None
                } else {
                    Some(n as usize)
                },
                None => Some(1usize),
            },
            None => Some(1usize),
        },
{
    match setting {
        Some(raw) => match parse_usize(raw.as_str()) {
            Some(n) => if n == 0 {
                None
            } else {
                Some(n)
            },
            None => Some(1),
        },
        None => Some(1),
    }
}

// ---------------------------------------------------------------------------
// Writing.
// ---------------------------------------------------------------------------

/// How a dataset is written.
#[derive(Debug, Clone)]
pub struct IngestOptions {
    pub max_rows_per_file: Option<usize>,
    pub max_bytes_per_file: Option<usize>,
    pub data_storage_version: Option<String>,
    pub index_columns: Vec<String>,
    pub write_mode: Option<String>,
}

impl Default for IngestOptions {
    /// Everything as the engine has it, and no indices.
    fn default() -> (options: IngestOptions)
        ensures
            options.max_rows_per_file is None,
            options.max_bytes_per_file is None,
            options.data_storage_version is None,
            options.index_columns@.len() == 0,
            options.write_mode is None,
    {
        IngestOptions {
            max_rows_per_file: None,
            max_bytes_per_file: None,
            data_storage_version: None,
            index_columns: Vec::new(),
            write_mode: None,
        }
    }
}

/// A file limit: what the user asks for. A dataset of web text without any limit goes to one file.
pub open spec fn file_limit(
    one_file: bool,
    asked: Option<usize>,
    other: Option<usize>,
) -> Option<usize> {
    if asked is Some {
        asked
    } else if one_file && other is None {
        Some(usize::MAX)
    } else {
        None
    }
}

/// The options of an ingest, from what the user asks for.
pub fn ingest_options(
    dataset: DatasetArg,
    max_rows_per_file: Option<usize>,
    max_bytes_per_file: Option<usize>,
    file_version: &Option<String>,
    write_mode: Option<LanceWriteModeArg>,
    index_columns: &Option<String>,
) -> (options: IngestOptions)
    ensures
        options.max_rows_per_file == file_limit(
            dataset_named(dataset) == DatasetName::FineWeb,
            max_rows_per_file,
            max_bytes_per_file,
        ),
        options.max_bytes_per_file == file_limit(
            dataset_named(dataset) == DatasetName::FineWeb,
            max_bytes_per_file,
            max_rows_per_file,
        ),
        opt_view(options.data_storage_version) == opt_view(*file_version),
        opt_view(options.write_mode) == match write_mode {
            Some(mode) => Some(write_mode_word(mode)),
            None => None,
        },
        views(options.index_columns@) == match opt_view(*index_columns) {
            Some(columns) => list_items(columns),
            None => Seq::empty(),
        },
{
    let mut options = IngestOptions::default();
    if matches!(dataset, DatasetArg::FineWeb) && max_rows_per_file.is_none()
        && max_bytes_per_file.is_none() {
        options.max_rows_per_file = Some(usize::MAX);
        options.max_bytes_per_file = Some(usize::MAX);
    }
    if max_rows_per_file.is_some() {
        options.max_rows_per_file = max_rows_per_file;
    }
    if max_bytes_per_file.is_some() {
        options.max_bytes_per_file = max_bytes_per_file;
    }
    options.data_storage_version = clone_opt(file_version);
    options.write_mode = match write_mode {
        Some(mode) => Some(write_mode_name(mode).to_owned()),
        None => None,
    };
    match index_columns {
        Some(columns) => {
            options.index_columns = parse_list(columns.as_str());
        },
        None => {
            assert(views(options.index_columns@) =~= Seq::<Seq<char>>::empty());
        },
    }
    options
}

// ---------------------------------------------------------------------------
// Indices.
// ---------------------------------------------------------------------------

/// The name of the index of a column.
pub open spec fn index_name_of(column: Seq<char>) -> Seq<char> {
    column + "_btree"@
}

/// The name of the index of a column.
pub fn index_name(column: &str) -> (name: String)
    ensures
        name@ == index_name_of(column@),
{
    let mut name = column.to_owned();
    name.append("_btree");
    name
}

/// The columns to index, in order, and the column at which the work stops because the schema does
/// not have it.
pub open spec fn planned_indices(
    columns: Seq<Seq<char>>,
    fields: Seq<Seq<char>>,
    existing: Seq<Seq<char>>,
) -> (Seq<Seq<char>>, Option<Seq<char>>)
    decreases columns.len(),
{
    if columns.len() == 0 {
        (Seq::empty(), None)
    } else {
        let (planned, missing) = planned_indices(columns.drop_last(), fields, existing);
        let column = columns.last();
        if missing is Some {
            (planned, missing)
        } else if !fields.contains(column) {
            (planned, Some(column))
        } else if existing.contains(index_name_of(column)) {
            (planned, None)
        } else {
            (planned.push(column), None)
        }
    }
}

/// The indices to create.
#[derive(Debug, Clone, PartialEq, Eq)]
pub struct IndexPlan {
    /// The columns to index, in order.
    pub columns: Vec<String>,
    /// The column at which to fail once those are indexed.
    pub missing: Option<String>,
}

proof fn lemma_stops(
    columns: Seq<Seq<char>>,
    fields: Seq<Seq<char>>,
    existing: Seq<Seq<char>>,
    at: int,
)
    requires
        0 <= at <= columns.len(),
        planned_indices(columns.take(at), fields, existing).1 is Some,
    ensures
        planned_indices(columns, fields, existing) == planned_indices(
            columns.take(at),
            fields,
            existing,
        ),
    decreases columns.len(),
{
    if at < columns.len() {
        assert(columns.drop_last().take(at) =~= columns.take(at));
        lemma_stops(columns.drop_last(), fields, existing, at);
    } else {
        assert(columns.take(at) =~= columns);
    }
}

/// Plans the indices of columns: each that the dataset has and that has no index yet, up to the
/// first that it does not have.
pub fn plan_indices(
    columns: &Vec<String>,
    fields: &Vec<String>,
    existing: &Vec<String>,
) -> (plan: IndexPlan)
    ensures
        (views(plan.columns@), opt_view(plan.missing)) == planned_indices(
            views(columns@),
            views(fields@),
            views(existing@),
        ),
{
    let mut planned: Vec<String> = Vec::new();
    let mut i: usize = 0;
    let ghost all = views(columns@);
    assert(views(planned@) =~= Seq::<Seq<char>>::empty());
    assert(all.take(0) =~= Seq::<Seq<char>>::empty());
    while i < columns.len()
        invariant
            i <= columns.len(),
            all == views(columns@),
            (views(planned@), None::<Seq<char>>) == planned_indices(
                all.take(i as int),
                views(fields@),
                views(existing@),
            ),
        decreases columns.len() - i,
    {
        let column = columns[i].as_str();
        let ghost next = all.take(i + 1);
        assert(next.drop_last() =~= all.take(i as int));
        assert(next.last() == column@);
        if !list_contains(fields, column) {
            proof {
                assert(planned_indices(next, views(fields@), views(existing@)).1 is Some);
                lemma_stops(all, views(fields@), views(existing@), i + 1);
            }
            return IndexPlan { columns: planned, missing: Some(column.to_owned()) };
        }
        let name = index_name(column);
        if !list_contains(existing, name.as_str()) {
            let item = column.to_owned();
            proof {
                lemma_views_push(planned@, item);
            }
            planned.push(item);
        }
        i += 1;
    }
    assert(all.take(i as int) =~= all);
    IndexPlan { columns: planned, missing: None }
}

/// Why indices are not created.
#[derive(Debug)]
pub enum IndexError {
    /// The schema has no such column.
    MissingColumn(String),
}

impl IndexError {
    /// The words of the error.
    pub open spec fn words(self) -> Seq<char> {
        match self {
            IndexError::MissingColumn(column) => "index column not found in schema: "@ + column@,
        }
    }

    /// The words of the error.
    pub fn message(&self) -> (out: String)
        ensures
            out@ == self.words(),
    {
        match self {
            IndexError::MissingColumn(column) => {
                let mut out = "index column not found in schema: ".to_owned();
                out.append(column.as_str());
                out
            },
        }
    }
}

proof fn lemma_planned_from(
    columns: Seq<Seq<char>>,
    fields: Seq<Seq<char>>,
    existing: Seq<Seq<char>>,
)
    ensures
        forall|k: int|
            0 <= k < planned_indices(columns, fields, existing).0.len() ==> {
                let column = #[trigger] planned_indices(columns, fields, existing).0[k];
                &&& columns.contains(column)
                &&& fields.contains(column)
                &&& !existing.contains(index_name_of(column))
            },
    decreases columns.len(),
{
    if columns.len() > 0 {
        let front = columns.drop_last();
        lemma_planned_from(front, fields, existing);
        let (planned, _) = planned_indices(columns, fields, existing);
        assert forall|k: int| 0 <= k < planned.len() implies {
            let column = #[trigger] planned[k];
            &&& columns.contains(column)
            &&& fields.contains(column)
            &&& !existing.contains(index_name_of(column))
        } by {
            let (before, _) = planned_indices(front, fields, existing);
            if k < before.len() {
                assert(before[k] == planned[k]);
                let i = choose|i: int| 0 <= i < front.len() && front[i] == before[k];
                assert(columns[i] == planned[k]);
            } else {
                assert(columns[columns.len() - 1] == planned[k]);
            }
        }
    }
}

/// Only columns that were asked for, that the dataset has and that have no index yet are indexed.
pub proof fn law_indices_are_new(
    columns: Seq<Seq<char>>,
    fields: Seq<Seq<char>>,
    existing: Seq<Seq<char>>,
    k: int,
)
    requires
        0 <= k < planned_indices(columns, fields, existing).0.len(),
    ensures
        columns.contains(planned_indices(columns, fields, existing).0[k]),
        fields.contains(planned_indices(columns, fields, existing).0[k]),
        !existing.contains(index_name_of(planned_indices(columns, fields, existing).0[k])),
{
    lemma_planned_from(columns, fields, existing);
}

/// Indexing again does nothing: once the planned indices exist, none is planned.
pub proof fn law_indexing_is_final(
    columns: Seq<Seq<char>>,
    fields: Seq<Seq<char>>,
    existing: Seq<Seq<char>>,
    after: Seq<Seq<char>>,
)
    requires
        forall|name: Seq<char>| existing.contains(name) ==> #[trigger] after.contains(name),
        forall|k: int|
            0 <= k < planned_indices(columns, fields, existing).0.len() ==> after.contains(
                index_name_of(#[trigger] planned_indices(columns, fields, existing).0[k]),
            ),
    ensures
        planned_indices(columns, fields, after).0 == Seq::<Seq<char>>::empty(),
        planned_indices(columns, fields, after).1 == planned_indices(
            columns,
            fields,
            existing,
        ).1,
    decreases columns.len(),
{
    if columns.len() > 0 {
        let front = columns.drop_last();
        let (planned, missing) = planned_indices(columns, fields, existing);
        let (before, _) = planned_indices(front, fields, existing);
        assert forall|k: int| 0 <= k < before.len() implies after.contains(
            index_name_of(#[trigger] planned_indices(front, fields, existing).0[k]),
        ) by {
            assert(before[k] == planned[k]);
        }
        law_indexing_is_final(front, fields, existing, after);
        if missing is None && !existing.contains(index_name_of(columns.last())) {
            assert(planned[planned.len() - 1] == columns.last());
        }
    }
}

// ---------------------------------------------------------------------------
// Scanning.
// ---------------------------------------------------------------------------

/// The largest number that a limit can be.
pub const MAX_LIMIT: u64 = 0x7fff_ffff_ffff_ffff;

/// A limit as the scanner takes it: at most its largest number.
pub open spec fn capped_limit(limit: Option<u64>) -> Option<i64> {
    match limit {
        Some(n) => Some(
            if n < MAX_LIMIT {
                n as i64
            } else {
                i64::MAX
            },
        ),
        None => None,
    }
}

fn cap_limit(limit: Option<u64>) -> (capped: Option<i64>)
    ensures
        capped == capped_limit(limit),
{
    match limit {
        Some(n) => Some(
            if n < MAX_LIMIT {
                n as i64
            } else {
                i64::MAX
            },
        ),
        None => None,
    }
}

/// The limit and the offset of a scan, where it has one of them.
pub fn scan_window(limit_rows: Option<u64>, row_offset: Option<u64>) -> (window: Option<
    (Option<i64>, Option<i64>),
>)
    ensures
        window == if limit_rows is None && row_offset is None {
            None
        } else {
            Some((capped_limit(limit_rows), capped_limit(row_offset)))
        },
{
    if limit_rows.is_none() && row_offset.is_none() {
        None
    } else {
        Some((cap_limit(limit_rows), cap_limit(row_offset)))
    }
}

/// Whether one fragment comes before another: by its id.
pub open spec fn by_id(ids: Seq<u64>) -> spec_fn(usize, usize) -> bool {
    |a: usize, b: usize| ids[a as int] < ids[b as int]
}

/// The order in which fragments are scanned: by id, and as they stand where ids are equal.
pub fn fragment_order(ids: &Vec<u64>) -> (order: Vec<usize>)
    ensures
        order@ == stable_sort(numbers_below(ids@.len()), by_id(ids@)),
{
    let ghost same = |at: usize| at;
    let mut order = count_up(ids.len());
    let before = |a: &usize, b: &usize| -> (yes: bool)
        requires
            *a < ids.len(),
            *b < ids.len(),
        ensures
            yes == by_id(ids@)(*a, *b),
        { ids[*a] < ids[*b] };
    assert(order@.map_values(same) =~= order@);
    sort_by::<usize, usize, _>(&mut order, before, Ghost(same), Ghost(by_id(ids@)));
    assert(order@.map_values(same) =~= order@);
    order
}

/// Why fragments are not scanned.
#[derive(Debug)]
pub enum FragmentScanError {
    /// The projection leaves out the column of the filter.
    FilterColumnNotProjected(String),
}

impl FragmentScanError {
    /// The words of the error.
    pub open spec fn words(self) -> Seq<char> {
        match self {
            FragmentScanError::FilterColumnNotProjected(column) =>
                "projection must include filter column "@ + column@,
        }
    }

    /// The words of the error.
    pub fn message(&self) -> (out: String)
        ensures
            out@ == self.words(),
    {
        match self {
            FragmentScanError::FilterColumnNotProjected(column) => {
                let mut out = "projection must include filter column ".to_owned();
                out.append(column.as_str());
                out
            },
        }
    }
}

/// Checks that a projection keeps the column that the filter reads.
pub fn check_fragment_filter(
    filter: &Option<Filter>,
    projection: &Option<Vec<String>>,
) -> (checked: Result<(), FragmentScanError>)
    ensures
        match (filter, projection) {
            (Some(f), Some(columns)) => if views(columns@).contains(f.column_name()) {
                checked is Ok
            } else {
                checked matches Err(FragmentScanError::FilterColumnNotProjected(column))
                    && column@ == f.column_name()
            },
            _ => checked is Ok,
        },
{
    match (filter, projection) {
        (Some(Filter::LtU64 { column, .. }), Some(columns)) => {
            if list_contains(columns, column.as_str()) {
                Ok(())
            } else {
                Err(FragmentScanError::FilterColumnNotProjected(column.clone()))
            }
        },
        _ => Ok(()),
    }
}

/// What a scan without fragments measures: no time at all, once for each repeat.
pub fn empty_scan(repeats: u32) -> (measured: (Timing, LatencySummary))
    ensures
        measured.0.wall_time_us == 0,
        measured.0.wall_time_ms == 0,
        measured.0.repeat_wall_time_us matches Some(times) && times@ == Seq::new(
            if repeats == 0 {
                1nat
            } else {
                repeats as nat
            },
            |i: int| 0u128,
        ),
        measured.1 == (LatencySummary { p50_us: 0, p95_us: 0, p99_us: 0 }),
{
    let n: u32 = at_least_one(repeats);
    let mut times: Vec<u128> = Vec::new();
    let mut i: u32 = 0;
    while i < n
        invariant
            i <= n,
            times@ == Seq::new(i as nat, |i: int| 0u128),
        decreases n - i,
    {
        times.push(0);
        i += 1;
        assert(times@ =~= Seq::new(i as nat, |i: int| 0u128));
    }
    (
        Timing { wall_time_us: 0, wall_time_ms: 0, repeat_wall_time_us: Some(times) },
        LatencySummary { p50_us: 0, p95_us: 0, p99_us: 0 },
    )
}

/// How the second blob format holds a value.
#[derive(Debug, Clone, Copy, PartialEq, Eq, Structural)]
pub enum BlobCell {
    Null,
    Empty,
    Bytes,
}

/// How the second blob format holds a value that is missing or has so many bytes.
pub fn blob_cell(bytes: Option<usize>) -> (cell: BlobCell)
    ensures
        cell == match bytes {
            None => BlobCell::Null,
            Some(n) => if n == 0 {
                BlobCell::Empty
            } else {
                BlobCell::Bytes
            },
        },
{
    match bytes {
        None => BlobCell::Null,
        Some(n) => if n == 0 {
            BlobCell::Empty
        } else {
            BlobCell::Bytes
        },
    }
}

} // verus!
