//! The tables of the report.
use vstd::prelude::*;

use crate::cases::{find_record, keys_of, last_match, parquet_key};
use crate::numbers::{decimal, u64_text};
use crate::params::Params;
use crate::records::{param, KeyView, RunKey, RunRecord};
use crate::report::{
    dataset_display, dataset_name, engine_display, engine_label, failure_tag, failure_word,
    parse_u64_param, push_row, repeats_of, row, scan_repeats, timing_us, total_us, u64_param,
};
use crate::text::{clone_opt, join, joined, views};
use crate::units::{bytes_text, fmt_bytes, fmt_time_ms, fmt_time_ms_u64, time_text};
use crate::workload::{DatasetName, EngineName, Workload};

verus! {

/// What the report shows of a record and takes from division: rows and bytes per second, and the
/// average time of a scan.
#[derive(Debug)]
pub struct Rates {
    pub rows_per_second: String,
    pub bytes_per_second: String,
    pub average_time: String,
}

/// A count, or zero.
pub open spec fn or_zero(n: Option<u64>) -> u64 {
    match n {
        Some(v) => v,
        None => 0,
    }
}

fn unwrap_count(n: Option<u64>) -> (v: u64)
    ensures
        v == or_zero(n),
{
    match n {
        Some(v) => v,
        None => 0,
    }
}

fn dash() -> (s: String)
    ensures
        s@ == "-"@,
{
    "-".to_owned()
}

/// The size measurement that belongs to an ingest.
pub open spec fn size_key(dataset: DatasetName, key: KeyView) -> KeyView {
    if key.engine == EngineName::Lance {
        KeyView { dataset, workload: Workload::Size, ..key }
    } else {
        parquet_key(dataset, Workload::Size)
    }
}

/// The size that an ingest left on disk, where it was measured.
pub open spec fn output_size(records: Seq<RunRecord>, dataset: DatasetName, at: int) -> Seq<char> {
    match last_match(keys_of(records), size_key(dataset, records[at].key@)) {
        Some(i) => match records[i].result.bytes {
            Some(b) => bytes_text(b as nat),
            None => "-"@,
        },
        None => "-"@,
    }
}

fn output_size_text(records: &Vec<RunRecord>, dataset: DatasetName, at: usize) -> (out: String)
    requires
        at < records.len(),
    ensures
        out@ == output_size(records@, dataset, at as int),
{
    let key = &records[at].key;
    let want = if key.engine == EngineName::Lance {
        RunKey {
            dataset,
            engine: EngineName::Lance,
            lance_file_version: clone_opt(&key.lance_file_version),
            lance_disable_compression: key.lance_disable_compression,
            lance_index_columns: clone_opt(&key.lance_index_columns),
            workload: Workload::Size,
        }
    } else {
        RunKey {
            dataset,
            engine: EngineName::Parquet,
            lance_file_version: None,
            lance_disable_compression: false,
            lance_index_columns: None,
            workload: Workload::Size,
        }
    };
    assert(want@ == size_key(dataset, key@));
    match find_record(records, &want) {
        Some(i) => match records[i].result.bytes {
            Some(b) => fmt_bytes(b),
            None => dash(),
        },
        None => dash(),
    }
}

/// The line of an ingest.
pub open spec fn ingest_line(
    records: Seq<RunRecord>,
    rates: Seq<Rates>,
    dataset: DatasetName,
    at: int,
) -> Seq<char> {
    let r = records[at];
    let rows = decimal(or_zero(r.result.rows) as nat);
    let bytes = bytes_text(or_zero(r.result.bytes) as nat);
    match failure_word(views(r.result.notes@)) {
        Some(tag) => row(
            seq![dataset_name(dataset), engine_label(r.key@), rows, tag, "-"@, bytes, "-"@, "-"@],
        ),
        None => row(
            seq![
                dataset_name(dataset),
                engine_label(r.key@),
                rows,
                time_text(total_us(r.result.timing) as nat),
                rates[at].rows_per_second@,
                bytes,
                rates[at].bytes_per_second@,
                output_size(records, dataset, at),
            ],
        ),
    }
}

/// Writes the line of an ingest.
pub fn write_ingest_row(
    out: &mut String,
    records: &Vec<RunRecord>,
    rates: &Vec<Rates>,
    dataset: DatasetName,
    at: usize,
)
    requires
        at < records.len(),
        rates.len() == records.len(),
    ensures
        final(out)@ == old(out)@ + ingest_line(records@, rates@, dataset, at as int),
{
    let r = &records[at];
    let rows = u64_text(unwrap_count(r.result.rows));
    let bytes = fmt_bytes(unwrap_count(r.result.bytes));
    let name = dataset_display(dataset).to_owned();
    let engine = engine_display(&r.key);
    match failure_tag(&r.result.notes) {
        Some(tag) => {
            let cells = vec![name, engine, rows, tag.to_owned(), dash(), bytes, dash(), dash()];
            assert(views(cells@) =~= seq![
                dataset_name(dataset),
                engine_label(r.key@),
                decimal(or_zero(r.result.rows) as nat),
                tag@,
                "-"@,
                bytes@,
                "-"@,
                "-"@,
            ]);
            push_row(out, &cells);
        },
        None => {
            let time = fmt_time_ms(timing_us(&r.result.timing));
            let rows_rate = rates[at].rows_per_second.clone();
            let bytes_rate = rates[at].bytes_per_second.clone();
            let size = output_size_text(records, dataset, at);
            let cells = vec![name, engine, rows, time, rows_rate, bytes, bytes_rate, size];
            assert(views(cells@) =~= seq![
                dataset_name(dataset),
                engine_label(r.key@),
                decimal(or_zero(r.result.rows) as nat),
                time_text(total_us(r.result.timing) as nat),
                rates@[at as int].rows_per_second@,
                bytes@,
                rates@[at as int].bytes_per_second@,
                output_size(records@, dataset, at as int),
            ]);
            push_row(out, &cells);
        },
    }
}

/// A total as an average over the repeats.
pub open spec fn per_repeat(total: u64, repeats: nat) -> nat {
    if repeats > 1 {
        total as nat / repeats
    } else {
        total as nat
    }
}

/// The line of a scan: counts are averages over the repeats; percentiles stand where there are
/// some, else the average time.
pub open spec fn scan_line(
    records: Seq<RunRecord>,
    rates: Seq<Rates>,
    dataset: DatasetName,
    at: int,
) -> Seq<char> {
    let r = records[at];
    let name = dataset_name(dataset);
    let engine = engine_label(r.key@);
    let repeats = repeats_of(r.result.meta.params@);
    let rows = decimal(per_repeat(or_zero(r.result.rows), repeats));
    let bytes = bytes_text(per_repeat(or_zero(r.result.bytes), repeats));
    let (p50, p95, p99) = match r.result.latency {
        Some(l) => (
            time_text(l.p50_us as nat),
            time_text(l.p95_us as nat),
            time_text(l.p99_us as nat),
        ),
        None => (rates[at].average_time@, "-"@, "-"@),
    };
    let timed = total_us(r.result.timing) != 0;
    match failure_word(views(r.result.notes@)) {
        Some(tag) => row(seq![name, engine, "-"@, tag, "-"@, "-"@, "-"@, "-"@, "-"@]),
        None => if timed {
            row(
                seq![
                    name,
                    engine,
                    rows,
                    p50,
                    p95,
                    p99,
                    rates[at].rows_per_second@,
                    bytes,
                    rates[at].bytes_per_second@,
                ],
            )
        } else {
            row(seq![name, engine, rows, p50, p95, p99, "-"@, bytes, "-"@])
        },
    }
}

/// Writes the line of a scan.
pub fn write_scan_row(
    out: &mut String,
    records: &Vec<RunRecord>,
    rates: &Vec<Rates>,
    dataset: DatasetName,
    at: usize,
)
    requires
        at < records.len(),
        rates.len() == records.len(),
    ensures
        final(out)@ == old(out)@ + scan_line(records@, rates@, dataset, at as int),
{
    let r = &records[at];
    let name = dataset_display(dataset).to_owned();
    let engine = engine_display(&r.key);
    match failure_tag(&r.result.notes) {
        Some(tag) => {
            let cells = vec![
                name,
                engine,
                dash(),
                tag.to_owned(),
                dash(),
                dash(),
                dash(),
                dash(),
                dash(),
            ];
            assert(views(cells@) =~= seq![
                name@,
                engine@,
                "-"@,
                tag@,
                "-"@,
                "-"@,
                "-"@,
                "-"@,
                "-"@,
            ]);
            push_row(out, &cells);
            return ;
        },
        None => {},
    }
    let repeats: u32 = scan_repeats(&r.result.meta.params);
    let rows_total: u64 = unwrap_count(r.result.rows);
    let bytes_total: u64 = unwrap_count(r.result.bytes);
    let rows = u64_text(
        if repeats > 1 {
            rows_total / (repeats as u64)
        } else {
            rows_total
        },
    );
    let bytes = fmt_bytes(
        if repeats > 1 {
            bytes_total / (repeats as u64)
        } else {
            bytes_total
        },
    );
    let (p50, p95, p99) = match &r.result.latency {
        Some(l) => (
            fmt_time_ms_u64(l.p50_us),
            fmt_time_ms_u64(l.p95_us),
            fmt_time_ms_u64(l.p99_us),
        ),
        None => (rates[at].average_time.clone(), dash(), dash()),
    };
    let timed = timing_us(&r.result.timing) != 0;
    let rows_rate = if timed {
        rates[at].rows_per_second.clone()
    } else {
        dash()
    };
    let bytes_rate = if timed {
        rates[at].bytes_per_second.clone()
    } else {
        dash()
    };
    let cells = vec![name, engine, rows, p50, p95, p99, rows_rate, bytes, bytes_rate];
    assert(views(cells@) =~= seq![
        name@,
        engine@,
        rows@,
        p50@,
        p95@,
        p99@,
        rows_rate@,
        bytes@,
        bytes_rate@,
    ]);
    push_row(out, &cells);
}

/// A latency in microseconds.
pub open spec fn us_text(us: u64) -> Seq<char> {
    decimal(us as nat) + " us"@
}

fn fmt_us(us: u64) -> (out: String)
    ensures
        out@ == us_text(us),
{
    let mut out = u64_text(us);
    out.append(" us");
    out
}

/// The line of random row access; a result without latencies has none.
pub open spec fn take_line(records: Seq<RunRecord>, dataset: DatasetName, at: int) -> Seq<char> {
    let r = records[at];
    let name = dataset_name(dataset);
    let engine = engine_label(r.key@);
    match failure_word(views(r.result.notes@)) {
        Some(tag) => row(seq![name, engine, tag, "-"@, "-"@, "-"@]),
        None => match r.result.latency {
            Some(l) => row(
                seq![
                    name,
                    engine,
                    time_text(total_us(r.result.timing) as nat),
                    us_text(l.p50_us),
                    us_text(l.p95_us),
                    us_text(l.p99_us),
                ],
            ),
            None => Seq::empty(),
        },
    }
}

/// Writes the line of random row access.
pub fn write_take_row(out: &mut String, records: &Vec<RunRecord>, dataset: DatasetName, at: usize)
    requires
        at < records.len(),
    ensures
        final(out)@ == old(out)@ + take_line(records@, dataset, at as int),
{
    let r = &records[at];
    let name = dataset_display(dataset).to_owned();
    let engine = engine_display(&r.key);
    match failure_tag(&r.result.notes) {
        Some(tag) => {
            let cells = vec![name, engine, tag.to_owned(), dash(), dash(), dash()];
            assert(views(cells@) =~= seq![name@, engine@, tag@, "-"@, "-"@, "-"@]);
            push_row(out, &cells);
        },
        None => match &r.result.latency {
            Some(l) => {
                let time = fmt_time_ms(timing_us(&r.result.timing));
                let cells = vec![
                    name,
                    engine,
                    time,
                    fmt_us(l.p50_us),
                    fmt_us(l.p95_us),
                    fmt_us(l.p99_us),
                ];
                assert(views(cells@) =~= seq![
                    name@,
                    engine@,
                    time@,
                    us_text(l.p50_us),
                    us_text(l.p95_us),
                    us_text(l.p99_us),
                ]);
                push_row(out, &cells);
            },
            None => {
                assert(out@ =~= old(out)@ + Seq::<char>::empty());
            },
        },
    }
}

/// The line of random blob access; a result without latencies has none.
pub open spec fn blob_line(records: Seq<RunRecord>, dataset: DatasetName, at: int) -> Seq<char> {
    let r = records[at];
    let name = dataset_name(dataset);
    let engine = engine_label(r.key@);
    let bytes = bytes_text(or_zero(r.result.bytes) as nat);
    match failure_word(views(r.result.notes@)) {
        Some(tag) => row(seq![name, engine, bytes, tag, "-"@, "-"@, "-"@]),
        None => match r.result.latency {
            Some(l) => row(
                seq![
                    name,
                    engine,
                    bytes,
                    time_text(total_us(r.result.timing) as nat),
                    us_text(l.p50_us),
                    us_text(l.p95_us),
                    us_text(l.p99_us),
                ],
            ),
            None => Seq::empty(),
        },
    }
}

/// Writes the line of random blob access.
pub fn write_blob_row(out: &mut String, records: &Vec<RunRecord>, dataset: DatasetName, at: usize)
    requires
        at < records.len(),
    ensures
        final(out)@ == old(out)@ + blob_line(records@, dataset, at as int),
{
    let r = &records[at];
    let name = dataset_display(dataset).to_owned();
    let engine = engine_display(&r.key);
    let bytes = fmt_bytes(unwrap_count(r.result.bytes));
    match failure_tag(&r.result.notes) {
        Some(tag) => {
            let cells = vec![name, engine, bytes, tag.to_owned(), dash(), dash(), dash()];
            assert(views(cells@) =~= seq![name@, engine@, bytes@, tag@, "-"@, "-"@, "-"@]);
            push_row(out, &cells);
        },
        None => match &r.result.latency {
            Some(l) => {
                let time = fmt_time_ms(timing_us(&r.result.timing));
                let cells = vec![
                    name,
                    engine,
                    bytes,
                    time,
                    fmt_us(l.p50_us),
                    fmt_us(l.p95_us),
                    fmt_us(l.p99_us),
                ];
                assert(views(cells@) =~= seq![
                    name@,
                    engine@,
                    bytes@,
                    time@,
                    us_text(l.p50_us),
                    us_text(l.p95_us),
                    us_text(l.p99_us),
                ]);
                push_row(out, &cells);
            },
            None => {
                assert(out@ =~= old(out)@ + Seq::<char>::empty());
            },
        },
    }
}

/// How a column was added: by an expression, or by rewriting into another file.
pub open spec fn evolve_note(params: Map<Seq<char>, Seq<char>>) -> Seq<char> {
    match param(params, "expr"@) {
        Some(expr) => "expr="@ + expr,
        None => match param(params, "rewrite_out"@) {
            Some(out) => "rewrite_out="@ + out,
            None => "-"@,
        },
    }
}

/// How a column was added.
pub fn evolve_notes(params: &Params) -> (out: String)
    ensures
        out@ == evolve_note(params@),
{
    match params.get("expr") {
        Some(expr) => {
            let mut out = "expr=".to_owned();
            out.append(expr.as_str());
            out
        },
        None => match params.get("rewrite_out") {
            Some(rewrite_out) => {
                let mut out = "rewrite_out=".to_owned();
                out.append(rewrite_out.as_str());
                out
            },
            None => dash(),
        },
    }
}

/// A size parameter; zero where it is missing.
pub open spec fn size_param(params: Map<Seq<char>, Seq<char>>, name: Seq<char>) -> nat {
    match u64_param(params, name) {
        Some(n) => n,
        None => 0,
    }
}

/// The line of a schema evolution.
pub open spec fn evolve_line(records: Seq<RunRecord>, dataset: DatasetName, at: int) -> Seq<char> {
    let r = records[at];
    let name = dataset_name(dataset);
    let engine = engine_label(r.key@);
    let params = r.result.meta.params@;
    match failure_word(views(r.result.notes@)) {
        Some(tag) => row(
            seq![name, engine, "-"@, "-"@, "-"@, tag, joined(views(r.result.notes@), "; "@)],
        ),
        None => row(
            seq![
                name,
                engine,
                bytes_text(size_param(params, "base_size_bytes"@)),
                bytes_text(size_param(params, "evolved_size_bytes"@)),
                bytes_text(or_zero(r.result.bytes) as nat),
                time_text(total_us(r.result.timing) as nat),
                evolve_note(params),
            ],
        ),
    }
}

/// Writes the line of a schema evolution.
pub fn write_evolve_row(out: &mut String, records: &Vec<RunRecord>, dataset: DatasetName, at: usize)
    requires
        at < records.len(),
    ensures
        final(out)@ == old(out)@ + evolve_line(records@, dataset, at as int),
{
    let r = &records[at];
    let name = dataset_display(dataset).to_owned();
    let engine = engine_display(&r.key);
    match failure_tag(&r.result.notes) {
        Some(tag) => {
            let notes = join(&r.result.notes, "; ");
            let cells = vec![name, engine, dash(), dash(), dash(), tag.to_owned(), notes];
            assert(views(cells@) =~= seq![name@, engine@, "-"@, "-"@, "-"@, tag@, notes@]);
            push_row(out, &cells);
        },
        None => {
            let params = &r.result.meta.params;
            let base = fmt_bytes(unwrap_count(parse_u64_param(params, "base_size_bytes")));
            let evolved = fmt_bytes(unwrap_count(parse_u64_param(params, "evolved_size_bytes")));
            let written = fmt_bytes(unwrap_count(r.result.bytes));
            let time = fmt_time_ms(timing_us(&r.result.timing));
            let note = evolve_notes(params);
            let cells = vec![name, engine, base, evolved, written, time, note];
            assert(views(cells@) =~= seq![
                name@,
                engine@,
                base@,
                evolved@,
                written@,
                time@,
                note@,
            ]);
            push_row(out, &cells);
        },
    }
}

} // verus!
