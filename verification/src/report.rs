//! The benchmark report.
use vstd::prelude::*;

use crate::cases::{
    case_key, case_views, find_record, keys_of, lance_cases, lance_cases_for_workload, last_match,
    parquet_key,
};
use crate::metrics::Timing;
use crate::numbers::{number_up_to, parse_u32, parse_u64};
use crate::params::Params;
use crate::records::{param, KeyView, ResultFile, RunKey, RunRecord};
use crate::selection::{distinct_names, is_selection, records_of, select_results, Listing};
use crate::text::{clone_opt, has_prefix, join, joined, starts_with_text, views};
use crate::workload::{DatasetName, EngineName, Workload};

verus! {

/// The results that the report shows: the newest one of each case.
pub fn load_results(files: Vec<ResultFile>) -> (records: Vec<RunRecord>)
    requires
        distinct_names(files@),
    ensures
        exists|picked: Seq<ResultFile>| #[trigger]
            is_selection(Listing::Report, files@, picked) && records_of(
                Listing::Report,
                records@,
                picked,
            ),
{
    select_results(Listing::Report, files)
}

/// The datasets in the order of the report.
pub open spec fn report_datasets() -> Seq<DatasetName> {
    seq![
        DatasetName::FineWeb,
        DatasetName::OpenVid,
        DatasetName::Laion10m,
        DatasetName::LeRobotPushT,
        DatasetName::LeRobotPushTImage,
    ]
}

/// The datasets in the order of the report.
pub fn dataset_iter() -> (out: Vec<DatasetName>)
    ensures
        out@ == report_datasets(),
{
    let out = vec![
        DatasetName::FineWeb,
        DatasetName::OpenVid,
        DatasetName::Laion10m,
        DatasetName::LeRobotPushT,
        DatasetName::LeRobotPushTImage,
    ];
    assert(out@ =~= report_datasets());
    out
}

/// The name of a dataset in the report.
pub open spec fn dataset_name(dataset: DatasetName) -> Seq<char> {
    match dataset {
        DatasetName::FineWeb => "FineWeb"@,
        DatasetName::OpenVid => "OpenVid"@,
        DatasetName::Laion10m => "LAION"@,
        DatasetName::LeRobotPushT => "LeRobot PushT"@,
        DatasetName::LeRobotPushTImage => "LeRobot PushT Image"@,
        DatasetName::Unknown => "Unknown"@,
    }
}

/// The name of a dataset in the report.
pub fn dataset_display(dataset: DatasetName) -> (name: &'static str)
    ensures
        name@ == dataset_name(dataset),
{
    match dataset {
        DatasetName::FineWeb => "FineWeb",
        DatasetName::OpenVid => "OpenVid",
        DatasetName::Laion10m => "LAION",
        DatasetName::LeRobotPushT => "LeRobot PushT",
        DatasetName::LeRobotPushTImage => "LeRobot PushT Image",
        DatasetName::Unknown => "Unknown",
    }
}

/// The name of an engine in the report, with the parameters of a Lance case.
pub open spec fn engine_label(key: KeyView) -> Seq<char> {
    match key.engine {
        EngineName::Lance => {
            let version = match key.version {
                Some(v) => v,
                None => "unknown"@,
            };
            let base = "lance@"@ + version + if key.disable_compression {
                "+no-compression"@
            } else {
                ""@
            };
            match key.index_columns {
                Some(cols) if cols.len() > 0 => base + "+idx("@ + cols + ")"@,
                _ => base,
            }
        },
        EngineName::Parquet => "parquet"@,
        EngineName::LanceFragment => "lance-fragment"@,
        EngineName::Unknown => "unknown"@,
    }
}

/// The name of an engine in the report.
pub fn engine_display(key: &RunKey) -> (out: String)
    ensures
        out@ == engine_label(key@),
{
    match key.engine {
        EngineName::Lance => {
            let mut base = "lance@".to_owned();
            match &key.lance_file_version {
                Some(v) => base.append(v.as_str()),
                None => base.append("unknown"),
            }
            if key.lance_disable_compression {
                base.append("+no-compression");
            } else {
                base.append("");
            }
            match &key.lance_index_columns {
                Some(cols) => {
                    if !cols.as_str().is_empty() {
                        base.append("+idx(");
                        base.append(cols.as_str());
                        base.append(")");
                    }
                },
                None => {},
            }
            base
        },
        EngineName::Parquet => "parquet".to_owned(),
        EngineName::LanceFragment => "lance-fragment".to_owned(),
        EngineName::Unknown => "unknown".to_owned(),
    }
}

/// The wall time of a run in microseconds; older results hold milliseconds only.
pub open spec fn total_us(t: Timing) -> u128 {
    if t.wall_time_us != 0 {
        t.wall_time_us
    } else if t.wall_time_ms * 1000 <= u128::MAX {
        (t.wall_time_ms * 1000) as u128
    } else {
        u128::MAX
    }
}

/// The wall time of a run in microseconds.
pub fn timing_us(t: &Timing) -> (us: u128)
    ensures
        us == total_us(*t),
{
    if t.wall_time_us != 0 {
        t.wall_time_us
    } else if t.wall_time_ms <= u128::MAX / 1000 {
        t.wall_time_ms * 1000
    } else {
        u128::MAX
    }
}

/// A numeric parameter.
pub open spec fn u64_param(params: Map<Seq<char>, Seq<char>>, name: Seq<char>) -> Option<nat> {
    match param(params, name) {
        Some(v) => number_up_to(v, u64::MAX as nat),
        None => None,
    }
}

/// An optional number as a natural number.
pub open spec fn opt_nat(n: Option<u64>) -> Option<nat> {
    match n {
        Some(v) => Some(v as nat),
        None => None,
    }
}

/// A numeric parameter; one that is not a number counts as absent.
pub fn parse_u64_param(params: &Params, name: &str) -> (n: Option<u64>)
    ensures
        opt_nat(n) == u64_param(params@, name@),
{
    match params.get(name) {
        Some(v) => parse_u64(v.as_str()),
        None => None,
    }
}

/// How often a scan was repeated; at least once.
pub open spec fn repeats_of(params: Map<Seq<char>, Seq<char>>) -> nat {
    match param(params, "repeats"@) {
        Some(v) => match number_up_to(v, u32::MAX as nat) {
            Some(n) => if n > 1 {
                n
            } else {
                1
            },
            None => 1,
        },
        None => 1,
    }
}

/// How often a scan was repeated.
pub fn scan_repeats(params: &Params) -> (n: u32)
    ensures
        n == repeats_of(params@),
        n >= 1,
{
    match params.get("repeats") {
        Some(v) => match parse_u32(v.as_str()) {
            Some(n) => if n > 1 {
                n
            } else {
                1
            },
            None => 1,
        },
        None => 1,
    }
}

/// Whether some note starts with `tag`.
pub open spec fn has_note(notes: Seq<Seq<char>>, tag: Seq<char>) -> bool {
    exists|i: int| 0 <= i < notes.len() && has_prefix(#[trigger] notes[i], tag)
}

/// How a failed run is marked.
pub open spec fn failure_word(notes: Seq<Seq<char>>) -> Option<Seq<char>> {
    if has_note(notes, "panic:"@) {
        Some("PANIC"@)
    } else if has_note(notes, "error:"@) {
        Some("ERROR"@)
    } else {
        None
    }
}

fn any_note(notes: &Vec<String>, tag: &str) -> (found: bool)
    ensures
        found == has_note(views(notes@), tag@),
{
    let mut i: usize = 0;
    while i < notes.len()
        invariant
            i <= notes.len(),
            forall|j: int| 0 <= j < i ==> !has_prefix(#[trigger] views(notes@)[j], tag@),
        decreases notes.len() - i,
    {
        assert(views(notes@)[i as int] == notes@[i as int]@);
        if starts_with_text(notes[i].as_str(), tag) {
            return true;
        }
        i += 1;
    }
    false
}

/// The contents of an optional literal.
pub open spec fn opt_str(s: Option<&'static str>) -> Option<Seq<char>> {
    match s {
        Some(t) => Some(t@),
        None => None,
    }
}

/// How a failed run is marked.
pub fn failure_tag(notes: &Vec<String>) -> (tag: Option<&'static str>)
    ensures
        opt_str(tag) == failure_word(views(notes@)),
{
    if any_note(notes, "panic:") {
        Some("PANIC")
    } else if any_note(notes, "error:") {
        Some("ERROR")
    } else {
        None
    }
}

/// A table row.
pub open spec fn row(cells: Seq<Seq<char>>) -> Seq<char> {
    "| "@ + joined(cells, " | "@) + " |\n"@
}

pub(crate) fn push_row(out: &mut String, cells: &Vec<String>)
    ensures
        final(out)@ == old(out)@ + row(views(cells@)),
{
    out.append("| ");
    out.append(join(cells, " | ").as_str());
    out.append(" |\n");
    assert(out@ =~= old(out)@ + row(views(cells@)));
}

// ---------------------------------------------------------------------------
// The rows of a table.
// ---------------------------------------------------------------------------

/// The lines of the Lance cases of a dataset.
pub open spec fn case_lines(
    keys: Seq<KeyView>,
    dataset: DatasetName,
    workload: Workload,
    cases: Seq<crate::cases::CaseView>,
) -> Seq<(DatasetName, int)>
    decreases cases.len(),
{
    if cases.len() == 0 {
        Seq::empty()
    } else {
        let front = case_lines(keys, dataset, workload, cases.drop_last());
        match last_match(keys, case_key(dataset, workload, cases.last())) {
            Some(i) => front.push((dataset, i)),
            None => front,
        }
    }
}

/// The lines of a dataset: the Parquet result, then the Lance cases.
pub open spec fn dataset_lines(
    keys: Seq<KeyView>,
    dataset: DatasetName,
    workload: Workload,
) -> Seq<(DatasetName, int)> {
    let first = match last_match(keys, parquet_key(dataset, workload)) {
        Some(i) => seq![(dataset, i)],
        None => Seq::empty(),
    };
    first + case_lines(keys, dataset, workload, lance_cases(keys, dataset, workload))
}

/// The lines of a table: which record stands in each, with its dataset.
pub open spec fn table_lines(
    keys: Seq<KeyView>,
    workload: Workload,
    datasets: Seq<DatasetName>,
) -> Seq<(DatasetName, int)>
    decreases datasets.len(),
{
    if datasets.len() == 0 {
        Seq::empty()
    } else {
        table_lines(keys, workload, datasets.drop_last()) + dataset_lines(
            keys,
            datasets.last(),
            workload,
        )
    }
}

/// The contents of a list of lines.
pub open spec fn lines_view(lines: Seq<(DatasetName, usize)>) -> Seq<(DatasetName, int)> {
    Seq::new(lines.len(), |i: int| (lines[i].0, lines[i].1 as int))
}

fn push_line(lines: &mut Vec<(DatasetName, usize)>, dataset: DatasetName, at: usize)
    ensures
        lines_view(final(lines)@) == lines_view(old(lines)@).push((dataset, at as int)),
        final(lines)@ == old(lines)@.push((dataset, at)),
{
    lines.push((dataset, at));
    assert(lines_view(lines@) =~= lines_view(old(lines)@).push((dataset, at as int)));
}

fn push_dataset_lines(
    lines: &mut Vec<(DatasetName, usize)>,
    records: &Vec<RunRecord>,
    dataset: DatasetName,
    workload: Workload,
)
    requires
        forall|i: int| 0 <= i < old(lines).len() ==> (#[trigger] old(lines)@[i]).1 < records.len(),
    ensures
        lines_view(final(lines)@) == lines_view(old(lines)@) + dataset_lines(
            keys_of(records@),
            dataset,
            workload,
        ),
        forall|i: int| 0 <= i < final(lines).len() ==> (#[trigger] final(lines)@[i]).1
            < records.len(),
{
    let ghost keys = keys_of(records@);
    let ghost start = lines_view(lines@);
    let want = RunKey {
        dataset,
        engine: EngineName::Parquet,
        lance_file_version: None,
        lance_disable_compression: false,
        lance_index_columns: None,
        workload,
    };
    assert(want@ == parquet_key(dataset, workload));
    match find_record(records, &want) {
        Some(i) => push_line(lines, dataset, i),
        None => {},
    }
    let ghost first = match last_match(keys, parquet_key(dataset, workload)) {
        Some(i) => seq![(dataset, i)],
        None => Seq::empty(),
    };
    assert(lines_view(lines@) =~= start + first);
    let cases = lance_cases_for_workload(records, dataset, workload);
    let ghost all = case_views(cases@);
    let mut i: usize = 0;
    assert(all.take(0) =~= Seq::<crate::cases::CaseView>::empty());
    assert(start + first + case_lines(keys, dataset, workload, all.take(0)) =~= start + first);
    while i < cases.len()
        invariant
            i <= cases.len(),
            keys == keys_of(records@),
            all == case_views(cases@),
            lines_view(lines@) == start + first + case_lines(
                keys,
                dataset,
                workload,
                all.take(i as int),
            ),
            forall|i: int| 0 <= i < lines.len() ==> (#[trigger] lines@[i]).1 < records.len(),
        decreases cases.len() - i,
    {
        let want = RunKey {
            dataset,
            engine: EngineName::Lance,
            lance_file_version: Some(cases[i].file_version.clone()),
            lance_disable_compression: cases[i].disable_compression,
            lance_index_columns: clone_opt(&cases[i].index_columns),
            workload,
        };
        let ghost before = case_lines(keys, dataset, workload, all.take(i as int));
        assert(all.take(i as int + 1).drop_last() =~= all.take(i as int));
        assert(want@ == case_key(dataset, workload, all[i as int]));
        match find_record(records, &want) {
            Some(at) => {
                push_line(lines, dataset, at);
                assert(start + first + before.push((dataset, at as int)) =~= (start + first
                    + before).push((dataset, at as int)));
            },
            None => {},
        }
        i += 1;
    }
    assert(all.take(all.len() as int) =~= all);
    assert(lines_view(lines@) =~= start + dataset_lines(keys, dataset, workload));
}

/// The lines of a table.
pub fn lines_for(records: &Vec<RunRecord>, workload: Workload) -> (lines: Vec<
    (DatasetName, usize),
>)
    ensures
        lines_view(lines@) == table_lines(keys_of(records@), workload, report_datasets()),
        forall|i: int| 0 <= i < lines.len() ==> (#[trigger] lines@[i]).1 < records.len(),
{
    let datasets = dataset_iter();
    let mut lines: Vec<(DatasetName, usize)> = Vec::new();
    let mut i: usize = 0;
    assert(datasets@.take(0) =~= Seq::<DatasetName>::empty());
    assert(lines_view(lines@) =~= Seq::<(DatasetName, int)>::empty());
    while i < datasets.len()
        invariant
            i <= datasets.len(),
            datasets@ == report_datasets(),
            lines_view(lines@) == table_lines(
                keys_of(records@),
                workload,
                datasets@.take(i as int),
            ),
            forall|i: int| 0 <= i < lines.len() ==> (#[trigger] lines@[i]).1 < records.len(),
        decreases datasets.len() - i,
    {
        assert(datasets@.take(i as int + 1).drop_last() =~= datasets@.take(i as int));
        push_dataset_lines(&mut lines, records, datasets[i], workload);
        i += 1;
    }
    assert(datasets@.take(datasets@.len() as int) =~= datasets@);
    lines
}

/// The text of some lines.
pub open spec fn lines_text(
    lines: Seq<(DatasetName, int)>,
    line: spec_fn(DatasetName, int) -> Seq<char>,
) -> Seq<char>
    decreases lines.len(),
{
    if lines.len() == 0 {
        Seq::empty()
    } else {
        lines_text(lines.drop_last(), line) + line(lines.last().0, lines.last().1)
    }
}

} // verus!
