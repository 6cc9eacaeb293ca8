//! What holds of the lines and tables of the report.
use vstd::prelude::*;

use crate::cases::{key_matches, keys_of, last_match};
use crate::metrics::Timing;
use crate::numbers::{decimal, digit, law_decimal_round_trip, number_of, padded};
use crate::records::{KeyView, RunRecord};
use crate::report::{dataset_name, engine_label, has_note, repeats_of, row, total_us};
use crate::tables::{
    blob_line, evolve_line, ingest_line, or_zero, output_size, per_repeat, scan_line, size_key,
    take_line, Rates,
};
use crate::text::{has_prefix, joined, views};
use crate::units::{bytes_text, double_step, nearest_double, round_div, size_unit, time_text};
use crate::workload::{DatasetName, EngineName, Workload};

verus! {

// ---------------------------------------------------------------------------
// Rows of a table.
// ---------------------------------------------------------------------------

/// A row stands between bars. A further cell stands behind the last one, with a bar between.
pub proof fn law_cells_stand_between_bars(cells: Seq<Seq<char>>, cell: Seq<char>)
    ensures
        row(seq![cell]) == "| "@ + cell + " |\n"@,
        cells.len() > 0 ==> row(cells).len() > 3 && row(cells.push(cell)) == row(cells).take(
            row(cells).len() - 1,
        ) + " "@ + cell + " |\n"@,
{
    reveal_strlit("| ");
    reveal_strlit(" |\n");
    reveal_strlit(" | ");
    reveal_strlit(" ");
    if cells.len() > 0 {
        assert(cells.push(cell).drop_last() =~= cells);
        assert(row(cells.push(cell)) =~= row(cells).take(row(cells).len() - 1) + " "@ + cell
            + " |\n"@);
    }
}

// ---------------------------------------------------------------------------
// Times and sizes.
// ---------------------------------------------------------------------------

/// A time below one millisecond is shown with the digits of its microseconds; a longer one in
/// whole milliseconds, what is over cut off.
pub proof fn law_times_are_milliseconds(us: nat, a: int, b: int, c: int, ms: nat, rest: nat)
    requires
        0 <= a < 10,
        0 <= b < 10,
        0 <= c < 10,
        ms > 0,
        rest < 1000,
    ensures
        us == 100 * a + 10 * b + c ==> time_text(us) == seq!['0', '.', digit(a), digit(b), digit(c)]
            + " ms"@,
        us == 1000 * ms + rest ==> time_text(us) == decimal(ms) + " ms"@,
{
    reveal_strlit("0.");
    reveal_strlit(" ms");
    reveal_with_fuel(padded, 4);
    if us == 100 * a + 10 * b + c {
        assert(us % 10 == c && us / 10 == 10 * a + b);
        assert((us / 10) % 10 == b && (us / 10) / 10 == a);
        assert(time_text(us) =~= seq!['0', '.', digit(a), digit(b), digit(c)] + " ms"@);
    }
    if us == 1000 * ms + rest {
        assert(us / 1000 == ms);
    }
}

/// Whether a size is shown as `h` hundredths of a unit.
pub open spec fn shows_hundredths(text: Seq<char>, h: nat, name: Seq<char>) -> bool {
    text == decimal(h / 100) + seq!['.', digit(((h / 10) % 10) as int), digit((h % 10) as int), ' ']
        + name
}

/// Whether `h` hundredths of `unit` are as near to `bytes` as hundredths can be.
pub open spec fn is_nearest(h: nat, unit: nat, bytes: nat) -> bool {
    -(unit as int) <= 2 * (100 * bytes - h * unit) <= unit
}

proof fn lemma_round_is_nearest(x: nat, d: nat)
    requires
        d > 0,
    ensures
        -(d as int) <= 2 * (x - round_div(x, d) * d) <= d,
{
    vstd::arithmetic::div_mod::lemma_fundamental_div_mod(x as int, d as int);
    vstd::arithmetic::div_mod::lemma_mod_bound(x as int, d as int);
    let q = x / d;
    assert(q * d == d * q && (q + 1) * d == d * q + d) by (nonlinear_arith);
}

/// A size below one KiB is shown in bytes. A larger one is shown in the largest of the binary units
/// that it reaches, to the nearest hundredth; sizes from 2^53 on are rounded to a double first.
pub proof fn law_sizes_are_near(bytes: nat)
    ensures
        bytes < 0x400 ==> bytes_text(bytes) == decimal(bytes) + " B"@,
        0x400 <= bytes < 0x10_0000 ==> exists|h: nat|
            is_nearest(h, 0x400, bytes) && #[trigger] shows_hundredths(
                bytes_text(bytes),
                h,
                "KiB"@,
            ),
        0x10_0000 <= bytes < 0x4000_0000 ==> exists|h: nat|
            is_nearest(h, 0x10_0000, bytes) && #[trigger] shows_hundredths(
                bytes_text(bytes),
                h,
                "MiB"@,
            ),
        0x4000_0000 <= bytes < 0x100_0000_0000 ==> exists|h: nat|
            is_nearest(h, 0x4000_0000, bytes) && #[trigger] shows_hundredths(
                bytes_text(bytes),
                h,
                "GiB"@,
            ),
        0x100_0000_0000 <= bytes < 0x20_0000_0000_0000 ==> exists|h: nat|
            is_nearest(h, 0x100_0000_0000, bytes) && #[trigger] shows_hundredths(
                bytes_text(bytes),
                h,
                "TiB"@,
            ),
        0x20_0000_0000_0000 <= bytes ==> exists|v: nat, h: nat|
            #![trigger is_nearest(h, 0x100_0000_0000, v)]
            is_nearest(h, 0x100_0000_0000, v) && shows_hundredths(bytes_text(bytes), h, "TiB"@)
                && -(bytes as int) <= 0x20_0000_0000_0000 * (v - bytes) <= bytes,
{
    if bytes >= 0x400 {
        let v = nearest_double(bytes);
        if bytes < 0x20_0000_0000_0000 {
            assert(double_step(bytes) == 1);
            assert(bytes / 1 == bytes && bytes % 1 == 0);
            assert(round_div(bytes, 1) == bytes);
            assert(v == bytes * 1);
        } else {
            lemma_double_is_near(bytes);
        }
        let (unit, name) = size_unit(v);
        let h = round_div(100 * v, unit);
        lemma_round_is_nearest(100 * v, unit);
        lemma_shows_hundredths(h, name);
        assert(is_nearest(h, unit, v));
        assert(shows_hundredths(bytes_text(bytes), h, name));
    }
}

proof fn lemma_shows_hundredths(h: nat, name: Seq<char>)
    ensures
        shows_hundredths(
            decimal(h / 100) + "."@ + padded(h % 100, 2) + " "@ + name,
            h,
            name,
        ),
{
    reveal_strlit(".");
    reveal_strlit(" ");
    reveal_with_fuel(padded, 3);
    assert((h % 100) % 10 == h % 10 && ((h % 100) / 10) % 10 == (h / 10) % 10);
    assert(decimal(h / 100) + "."@ + padded(h % 100, 2) + " "@ + name =~= decimal(
        h / 100,
    ) + seq!['.', digit(((h / 10) % 10) as int), digit((h % 10) as int), ' '] + name);
}

proof fn lemma_step_is_small(n: nat)
    requires
        n >= 0x20_0000_0000_0000,
    ensures
        double_step(n) > 0,
        double_step(n) * 0x10_0000_0000_0000 <= n,
    decreases n,
{
    if n / 2 >= 0x20_0000_0000_0000 {
        lemma_step_is_small(n / 2);
    } else {
        assert(double_step(n / 2) == 1);
    }
}

proof fn lemma_double_is_near(n: nat)
    requires
        n >= 0x20_0000_0000_0000,
    ensures
        -(n as int) <= 0x20_0000_0000_0000 * (nearest_double(n) - n) <= n,
        nearest_double(n) >= 0x100_0000_0000,
{
    lemma_step_is_small(n);
    lemma_round_is_nearest(n, double_step(n));
}

// ---------------------------------------------------------------------------
// Times of runs.
// ---------------------------------------------------------------------------

/// The report times a run by its whole microseconds; only where these are none, by the whole
/// milliseconds that older results have alone.
pub proof fn law_runs_are_timed_by_microseconds(timing: Timing, nanos: nat)
    ensures
        timing.measures(nanos) ==> 1000 * total_us(timing) <= nanos < 1000 * (total_us(timing) + 1),
        timing.wall_time_us == 0 && timing.wall_time_ms < 0x1_0000_0000_0000_0000 ==> total_us(
            timing,
        ) == 1000 * timing.wall_time_ms,
{
}

/// Whether a run says nothing of a failure.
pub open spec fn went_well(r: RunRecord) -> bool {
    forall|i: int|
        0 <= i < r.result.notes@.len() ==> !has_prefix(
            (#[trigger] r.result.notes@[i])@,
            "error:"@,
        ) && !has_prefix(r.result.notes@[i]@, "panic:"@)
}

proof fn lemma_went_well(r: RunRecord)
    requires
        went_well(r),
    ensures
        !has_note(views(r.result.notes@), "panic:"@),
        !has_note(views(r.result.notes@), "error:"@),
{
    let notes = views(r.result.notes@);
    assert forall|i: int| 0 <= i < notes.len() implies !has_prefix(#[trigger] notes[i], "panic:"@)
        && !has_prefix(notes[i], "error:"@) by {
        assert(notes[i] == r.result.notes@[i]@);
    }
}

/// A count that a table shows; one that is missing is shown as zero.
pub open spec fn count_of(n: Option<u64>) -> nat {
    match n {
        Some(v) => v as nat,
        None => 0,
    }
}

/// Whether a run was repeated `r` times, by its parameters; without a number that can be read it
/// was run once.
pub open spec fn was_repeated(record: RunRecord, r: nat) -> bool {
    let params = record.result.meta.params@;
    let said = params["repeats"@];
    if params.contains_key("repeats"@) {
        ||| 1 <= r <= u32::MAX && said == decimal(r)
        ||| r == 1 && (number_of(said) is None || said == decimal(0))
    } else {
        r == 1
    }
}

// ---------------------------------------------------------------------------
// Scans.
// ---------------------------------------------------------------------------

/// A scan is shown with the rows and bytes of one repeat, however often it was repeated: `r`
/// repeats of a scan of `n` rows and `b` bytes are recorded with `r * n` rows and `r * b` bytes and
/// shown with `n` and `b`. Beside them stand its own percentiles, each in its column, and its
/// rates.
pub proof fn law_scans_show_one_repeat(
    records: Seq<RunRecord>,
    rates: Seq<Rates>,
    dataset: DatasetName,
    at: int,
    r: nat,
    n: nat,
    b: nat,
)
    requires
        0 <= at < records.len(),
        went_well(records[at]),
        was_repeated(records[at], r),
        count_of(records[at].result.rows) == r * n,
        count_of(records[at].result.bytes) == r * b,
    ensures
        ({
            let it = records[at].result;
            let timed = it.timing.wall_time_us != 0 || it.timing.wall_time_ms != 0;
            let (p50, p95, p99) = match it.latency {
                Some(l) => (
                    time_text(l.p50_us as nat),
                    time_text(l.p95_us as nat),
                    time_text(l.p99_us as nat),
                ),
                None => (rates[at].average_time@, "-"@, "-"@),
            };
            let (rows_rate, bytes_rate) = if timed {
                (rates[at].rows_per_second@, rates[at].bytes_per_second@)
            } else {
                ("-"@, "-"@)
            };
            scan_line(records, rates, dataset, at) == row(
                seq![
                    dataset_name(dataset),
                    engine_label(records[at].key@),
                    decimal(n),
                    p50,
                    p95,
                    p99,
                    rows_rate,
                    bytes_text(b),
                    bytes_rate,
                ],
            )
        }),
{
    lemma_went_well(records[at]);
    law_decimal_round_trip(r);
    law_decimal_round_trip(0);
    vstd::arithmetic::div_mod::lemma_div_multiples_vanish(n as int, r as int);
    vstd::arithmetic::div_mod::lemma_div_multiples_vanish(b as int, r as int);
    vstd::arithmetic::mul::lemma_mul_basics(n as int);
    vstd::arithmetic::mul::lemma_mul_basics(b as int);
    let it = records[at].result;
    assert(repeats_of(it.meta.params@) == r);
    assert(per_repeat(or_zero(it.rows), r) == n);
    assert(per_repeat(or_zero(it.bytes), r) == b);
    let timed = it.timing.wall_time_us != 0 || it.timing.wall_time_ms != 0;
    assert(timed == (total_us(it.timing) != 0));
}

/// How often a scan was repeated does not show in the report: two results of one scan that were
/// repeated differently often, but took the same time, have the same line.
pub proof fn law_repeats_do_not_show(
    records: Seq<RunRecord>,
    rates: Seq<Rates>,
    dataset: DatasetName,
    i: int,
    j: int,
    r: nat,
    s: nat,
    n: nat,
    b: nat,
)
    requires
        0 <= i < records.len(),
        0 <= j < records.len(),
        went_well(records[i]),
        went_well(records[j]),
        was_repeated(records[i], r),
        was_repeated(records[j], s),
        count_of(records[i].result.rows) == r * n,
        count_of(records[i].result.bytes) == r * b,
        count_of(records[j].result.rows) == s * n,
        count_of(records[j].result.bytes) == s * b,
        records[i].key@ == records[j].key@,
        records[i].result.timing == records[j].result.timing,
        records[i].result.latency == records[j].result.latency,
        rates[i] == rates[j],
    ensures
        scan_line(records, rates, dataset, i) == scan_line(records, rates, dataset, j),
{
    law_scans_show_one_repeat(records, rates, dataset, i, r, n, b);
    law_scans_show_one_repeat(records, rates, dataset, j, s, n, b);
}

// ---------------------------------------------------------------------------
// Other runs.
// ---------------------------------------------------------------------------

/// The line of an ingest shows the rows and bytes that were written, in how long, and the rates.
/// The last cell, the size on disk, is that of the last size measurement of the same case.
pub proof fn law_ingests_show_what_was_written(
    records: Seq<RunRecord>,
    rates: Seq<Rates>,
    dataset: DatasetName,
    at: int,
)
    requires
        0 <= at < records.len(),
        went_well(records[at]),
    ensures
        exists|size: Seq<char>| #[trigger]
            is_output_size(records, dataset, at, size) && ingest_line(records, rates, dataset, at)
                == row(
                seq![
                    dataset_name(dataset),
                    engine_label(records[at].key@),
                    decimal(count_of(records[at].result.rows)),
                    time_text(total_us(records[at].result.timing) as nat),
                    rates[at].rows_per_second@,
                    bytes_text(count_of(records[at].result.bytes)),
                    rates[at].bytes_per_second@,
                    size,
                ],
            ),
{
    lemma_went_well(records[at]);
    lemma_output_size(records, dataset, at);
    assert(is_output_size(
        records,
        dataset,
        at,
        output_size(records, dataset, at),
    ));
}

/// Whether the record at `i` has the size on disk of what the record at `at` wrote.
pub open spec fn has_size_of(
    records: Seq<RunRecord>,
    dataset: DatasetName,
    at: int,
    i: int,
) -> bool {
    let (a, b) = (records[i].key, records[at].key);
    &&& 0 <= i < records.len()
    &&& a.dataset == dataset
    &&& a.workload == Workload::Size
    &&& if b.engine == EngineName::Lance {
        a.engine == EngineName::Lance && a@.version == b@.version
            && a.lance_disable_compression == b.lance_disable_compression && a@.index_columns
            == b@.index_columns
    } else {
        a.engine == EngineName::Parquet
    }
}

/// Whether `size` is what the last size measurement of a case gives; a dash where there is none.
pub open spec fn is_output_size(
    records: Seq<RunRecord>,
    dataset: DatasetName,
    at: int,
    size: Seq<char>,
) -> bool {
    ||| (size == "-"@ && forall|i: int|
        0 <= i < records.len() ==> !#[trigger] has_size_of(records, dataset, at, i))
    ||| exists|i: int|
        {
            &&& #[trigger] has_size_of(records, dataset, at, i)
            &&& forall|k: int|
                i < k < records.len() ==> !#[trigger] has_size_of(records, dataset, at, k)
            &&& size == match records[i].result.bytes {
                Some(bytes) => bytes_text(bytes as nat),
                None => "-"@,
            }
        }
}

/// Where the last record of a case is.
pub proof fn lemma_last_match(keys: Seq<KeyView>, want: KeyView)
    ensures
        match last_match(keys, want) {
            Some(i) => 0 <= i < keys.len() && key_matches(keys[i], want) && forall|
                k: int,
            |
                i < k < keys.len() ==> !key_matches(#[trigger] keys[k], want),
            None => forall|k: int|
                0 <= k < keys.len() ==> !key_matches(#[trigger] keys[k], want),
        },
    decreases keys.len(),
{
    if keys.len() > 0 && !key_matches(keys.last(), want) {
        let front = keys.drop_last();
        lemma_last_match(front, want);
        assert forall|k: int|
            0 <= k < front.len() && !key_matches(front[k], want) implies
            !key_matches(#[trigger] keys[k], want) by {
            assert(front[k] == keys[k]);
        }
    }
}

proof fn lemma_output_size(records: Seq<RunRecord>, dataset: DatasetName, at: int)
    requires
        0 <= at < records.len(),
    ensures
        is_output_size(records, dataset, at, output_size(records, dataset, at)),
{
    let keys = keys_of(records);
    let want = size_key(dataset, records[at].key@);
    lemma_last_match(keys, want);
    assert forall|i: int| 0 <= i < records.len() implies #[trigger] has_size_of(
        records,
        dataset,
        at,
        i,
    ) == key_matches(keys[i], want) by {}
    match last_match(keys, want) {
        Some(i) => {
            assert(has_size_of(records, dataset, at, i));
        },
        None => {},
    }
}

/// The line of random row access shows its time and its own percentiles, each in its column.
pub proof fn law_takes_show_their_latencies(records: Seq<RunRecord>, dataset: DatasetName, at: int)
    requires
        0 <= at < records.len(),
        went_well(records[at]),
    ensures
        match records[at].result.latency {
            Some(l) => take_line(records, dataset, at) == row(
                seq![
                    dataset_name(dataset),
                    engine_label(records[at].key@),
                    time_text(total_us(records[at].result.timing) as nat),
                    decimal(l.p50_us as nat) + " us"@,
                    decimal(l.p95_us as nat) + " us"@,
                    decimal(l.p99_us as nat) + " us"@,
                ],
            ),
            None => take_line(records, dataset, at).len() == 0,
        },
{
    lemma_went_well(records[at]);
}

/// The line of random blob access shows the bytes that were read, the time and the percentiles.
pub proof fn law_blobs_show_their_bytes(records: Seq<RunRecord>, dataset: DatasetName, at: int)
    requires
        0 <= at < records.len(),
        went_well(records[at]),
    ensures
        match records[at].result.latency {
            Some(l) => blob_line(records, dataset, at) == row(
                seq![
                    dataset_name(dataset),
                    engine_label(records[at].key@),
                    bytes_text(count_of(records[at].result.bytes)),
                    time_text(total_us(records[at].result.timing) as nat),
                    decimal(l.p50_us as nat) + " us"@,
                    decimal(l.p95_us as nat) + " us"@,
                    decimal(l.p99_us as nat) + " us"@,
                ],
            ),
            None => blob_line(records, dataset, at).len() == 0,
        },
{
    lemma_went_well(records[at]);
}

/// The line of a schema evolution shows the size before, the size after, what was written and the
/// time, in this order, and how the column was added.
pub proof fn law_evolutions_show_their_sizes(
    records: Seq<RunRecord>,
    dataset: DatasetName,
    at: int,
    base: u64,
    evolved: u64,
)
    requires
        0 <= at < records.len(),
        went_well(records[at]),
        records[at].result.meta.params@.contains_pair("base_size_bytes"@, decimal(base as nat)),
        records[at].result.meta.params@.contains_pair(
            "evolved_size_bytes"@,
            decimal(evolved as nat),
        ),
    ensures
        ({
            let params = records[at].result.meta.params@;
            evolve_line(records, dataset, at) == row(
                seq![
                    dataset_name(dataset),
                    engine_label(records[at].key@),
                    bytes_text(base as nat),
                    bytes_text(evolved as nat),
                    bytes_text(count_of(records[at].result.bytes)),
                    time_text(total_us(records[at].result.timing) as nat),
                    if params.contains_key("expr"@) {
                        "expr="@ + params["expr"@]
                    } else if params.contains_key("rewrite_out"@) {
                        "rewrite_out="@ + params["rewrite_out"@]
                    } else {
                        "-"@
                    },
                ],
            )
        }),
{
    lemma_went_well(records[at]);
    law_decimal_round_trip(base as nat);
    law_decimal_round_trip(evolved as nat);
}

/// Whether some note of a run starts with a word.
pub open spec fn notes_start(r: RunRecord, word: Seq<char>) -> bool {
    exists|i: int| 0 <= i < r.result.notes@.len() && has_prefix((#[trigger] r.result.notes@[i])@, word)
}

/// A failed run is marked in its line, and no measurement of it is shown as if it had gone well; a
/// panic counts before an error.
pub proof fn law_failed_runs_are_marked(
    records: Seq<RunRecord>,
    rates: Seq<Rates>,
    dataset: DatasetName,
    at: int,
    word: Seq<char>,
)
    requires
        0 <= at < records.len(),
        !went_well(records[at]),
        word == if notes_start(records[at], "panic:"@) {
            "PANIC"@
        } else {
            "ERROR"@
        },
    ensures
        ({
            let name = dataset_name(dataset);
            let engine = engine_label(records[at].key@);
            let rows = decimal(count_of(records[at].result.rows));
            let bytes = bytes_text(count_of(records[at].result.bytes));
            &&& ingest_line(records, rates, dataset, at) == row(
                seq![name, engine, rows, word, "-"@, bytes, "-"@, "-"@],
            )
            &&& scan_line(records, rates, dataset, at) == row(
                seq![name, engine, "-"@, word, "-"@, "-"@, "-"@, "-"@, "-"@],
            )
            &&& take_line(records, dataset, at) == row(seq![name, engine, word, "-"@, "-"@, "-"@])
            &&& blob_line(records, dataset, at) == row(
                seq![name, engine, bytes, word, "-"@, "-"@, "-"@],
            )
            &&& evolve_line(records, dataset, at) == row(
                seq![
                    name,
                    engine,
                    "-"@,
                    "-"@,
                    "-"@,
                    word,
                    joined(views(records[at].result.notes@), "; "@),
                ],
            )
        }),
{
    let r = records[at];
    let notes = views(r.result.notes@);
    let i = choose|i: int|
        0 <= i < r.result.notes@.len() && (has_prefix(
            (#[trigger] r.result.notes@[i])@,
            "error:"@,
        ) || has_prefix(r.result.notes@[i]@, "panic:"@));
    assert(notes[i] == r.result.notes@[i]@);
    if has_note(notes, "panic:"@) {
        let k = choose|k: int| 0 <= k < notes.len() && has_prefix(#[trigger] notes[k], "panic:"@);
        assert(has_prefix(r.result.notes@[k]@, "panic:"@));
        assert(notes_start(r, "panic:"@));
    } else {
        if notes_start(r, "panic:"@) {
            let k = choose|k: int|
                0 <= k < r.result.notes@.len() && has_prefix(
                    (#[trigger] r.result.notes@[k])@,
                    "panic:"@,
                );
            assert(has_prefix(notes[k], "panic:"@));
        }
        assert(has_note(notes, "error:"@));
    }
}

/// What lies halfway between two numbers is rounded to the even one.
pub proof fn law_halves_are_rounded_to_even(q: nat, half: nat)
    requires
        half > 0,
    ensures
        round_div(2 * half * q + half, 2 * half) % 2 == 0,
        round_div(2 * half * q, 2 * half) == q,
{
    let d = 2 * half;
    vstd::arithmetic::mul::lemma_mul_is_commutative(q as int, d as int);
    vstd::arithmetic::div_mod::lemma_fundamental_div_mod_converse(
        (d * q + half) as int,
        d as int,
        q as int,
        half as int,
    );
    vstd::arithmetic::div_mod::lemma_fundamental_div_mod_converse(
        (d * q) as int,
        d as int,
        q as int,
        0,
    );
}

} // verus!
