//! What holds of the charts and their bars.
use vstd::prelude::*;

use crate::cases::CaseView;
use crate::plot::{
    bar_color, bar_matches, bars, chart_list, is_first_of_bar, lance_variants, metric_value,
    parquet_bar, variant_bar, variant_less, EngineView, Metric,
};
use crate::records::{KeyView, RunRecord};
use crate::report::engine_label;
use crate::sorting::{compares_ranks, distinct, law_sort_orders, stable_sort};
use crate::table_laws::lemma_sorted_set;
use crate::text::{has_prefix, lemma_text_less_total, lemma_text_less_trans, opt_text, text_less};
use crate::workload::{DatasetName, EngineName, Workload};

verus! {

// ---------------------------------------------------------------------------
// What a chart shows.
// ---------------------------------------------------------------------------

proof fn lemma_axes()
    ensures
        has_prefix("p50 (ms)"@, "p50"@),
        has_prefix("p50 (us)"@, "p50"@),
        !has_prefix("Time (ms)"@, "p50"@),
        !has_prefix("Size (bytes)"@, "p50"@),
        !has_prefix("Bytes written (bytes)"@, "p50"@),
        has_prefix("Time (ms)"@, "Time"@),
        !has_prefix("p50 (ms)"@, "Time"@),
        !has_prefix("p50 (us)"@, "Time"@),
        !has_prefix("Size (bytes)"@, "Time"@),
        !has_prefix("Bytes written (bytes)"@, "Time"@),
        "p50 (ms)"@ != "p50 (us)"@,
        "Time (ms)"@ != "p50 (us)"@,
        "Size (bytes)"@ != "p50 (us)"@,
        "Bytes written (bytes)"@ != "p50 (us)"@,
{
    reveal_strlit("p50");
    reveal_strlit("Time");
    reveal_strlit("p50 (ms)");
    reveal_strlit("p50 (us)");
    reveal_strlit("Time (ms)");
    reveal_strlit("Size (bytes)");
    reveal_strlit("Bytes written (bytes)");
    assert("p50 (ms)"@.subrange(0, 3) =~= "p50"@);
    assert("p50 (us)"@.subrange(0, 3) =~= "p50"@);
    assert("Time (ms)"@.subrange(0, 4) =~= "Time"@);
    assert("Time (ms)"@.subrange(0, 3)[0] == 'T' && "p50"@[0] == 'p');
    assert("Size (bytes)"@.subrange(0, 3)[0] == 'S');
    assert("Bytes written (bytes)"@.subrange(0, 3)[0] == 'B');
    assert("p50 (ms)"@.subrange(0, 4)[0] == 'p' && "Time"@[0] == 'T');
    assert("p50 (us)"@.subrange(0, 4)[0] == 'p');
    assert("Size (bytes)"@.subrange(0, 4)[0] == 'S');
    assert("Bytes written (bytes)"@.subrange(0, 4)[0] == 'B');
    assert("p50 (ms)"@[5] == 'm' && "p50 (us)"@[5] == 'u');
    assert("Time (ms)"@[0] == 'T' && "p50 (us)"@[0] == 'p' && "Size (bytes)"@[0] == 'S'
        && "Bytes written (bytes)"@[0] == 'B');
}

/// A bar has the value that the axis of its chart names: where it says p50, the median latency of
/// the result, for charts in milliseconds and in microseconds alike; where it says time, the wall
/// time; else the bytes. A result without that measurement has no value.
pub proof fn law_bars_have_what_the_axis_names(r: RunRecord, i: int)
    requires
        0 <= i < chart_list().len(),
    ensures
        ({
            let (file, title, axis, metric, workload) = chart_list()[i];
            &&& has_prefix(axis, "p50"@) ==> metric_value(r, metric) == match r.result.latency {
                Some(l) => Some(l.p50_us as u128),
                None => None,
            }
            &&& has_prefix(axis, "Time"@) ==> metric_value(r, metric) == Some(
                r.result.timing.wall_time_ms,
            )
            &&& !has_prefix(axis, "p50"@) && !has_prefix(axis, "Time"@) ==> metric_value(r, metric)
                == match r.result.bytes {
                Some(b) => Some(b as u128),
                None => None,
            }
            &&& axis == "p50 (us)"@ <==> metric == Metric::P50Us
        }),
{
    lemma_axes();
    assert(i == 0 || i == 1 || i == 2 || i == 3 || i == 4 || i == 5 || i == 6 || i == 7 || i == 8
        || i == 9);
}

/// Of the latencies of a result only the median shows in a chart, and two results with the same
/// time, bytes and median show the same in every chart.
pub proof fn law_only_the_median_shows(a: RunRecord, b: RunRecord, i: int)
    requires
        0 <= i < chart_list().len(),
        a.result.timing.wall_time_ms == b.result.timing.wall_time_ms,
        a.result.bytes == b.result.bytes,
        a.result.latency is Some,
        b.result.latency is Some,
        a.result.latency->0.p50_us == b.result.latency->0.p50_us,
    ensures
        metric_value(a, chart_list()[i].3) == metric_value(b, chart_list()[i].3),
{
    law_bars_have_what_the_axis_names(a, i);
    law_bars_have_what_the_axis_names(b, i);
}

/// How the file of a chart begins.
pub open spec fn chart_word(workload: Workload) -> Seq<char> {
    match workload {
        Workload::Ingest => "ingest.time"@,
        Workload::Size => "ingest.output_size"@,
        Workload::ScanFull => "scan-full."@,
        Workload::ScanProject => "scan-project."@,
        Workload::ScanFilterLow => "scan-filter-low."@,
        Workload::ScanFilterHigh => "scan-filter-high."@,
        Workload::RandomTake => "take."@,
        Workload::RandomBlob => "blob."@,
        Workload::EvolutionBackfill => "evolve."@,
        _ => Seq::empty(),
    }
}

proof fn lemma_chart_files(i: int)
    requires
        0 <= i < chart_list().len(),
    ensures
        has_prefix(chart_list()[i].0, chart_word(chart_list()[i].4)),
        chart_word(chart_list()[i].4).len() > 0,
{
    reveal_strlit("ingest.time");
    reveal_strlit("ingest.output_size");
    reveal_strlit("scan-full.");
    reveal_strlit("scan-project.");
    reveal_strlit("scan-filter-low.");
    reveal_strlit("scan-filter-high.");
    reveal_strlit("take.");
    reveal_strlit("blob.");
    reveal_strlit("evolve.");
    reveal_strlit("ingest.time_ms.svg");
    reveal_strlit("ingest.output_size_bytes.svg");
    reveal_strlit("scan-full.p50_ms.svg");
    reveal_strlit("scan-project.p50_ms.svg");
    reveal_strlit("scan-filter-low.p50_ms.svg");
    reveal_strlit("scan-filter-high.p50_ms.svg");
    reveal_strlit("take.p50_us.svg");
    reveal_strlit("blob.p50_us.svg");
    reveal_strlit("evolve.time_ms.svg");
    reveal_strlit("evolve.bytes_written.svg");
    let (file, title, axis, metric, workload) = chart_list()[i];
    let word = chart_word(workload);
    assert(i == 0 || i == 1 || i == 2 || i == 3 || i == 4 || i == 5 || i == 6 || i == 7 || i == 8
        || i == 9);
    assert(file.subrange(0, word.len() as int) =~= word);
}

/// A chart is filed under the name of the workload that it shows, and no two charts share a file.
pub proof fn law_charts_are_filed_by_workload(i: int, j: int)
    requires
        0 <= i < chart_list().len(),
        0 <= j < chart_list().len(),
    ensures
        has_prefix(chart_list()[i].0, chart_word(chart_list()[i].4)),
        chart_word(chart_list()[i].4).len() > 0,
        i != j ==> chart_list()[i].0 != chart_list()[j].0,
{
    lemma_chart_files(i);
    lemma_chart_lengths();
    assert(i == 0 || i == 1 || i == 2 || i == 3 || i == 4 || i == 5 || i == 6 || i == 7 || i == 8
        || i == 9);
    assert(j == 0 || j == 1 || j == 2 || j == 3 || j == 4 || j == 5 || j == 6 || j == 7 || j == 8
        || j == 9);
}

proof fn lemma_chart_lengths()
    ensures
        "ingest.time_ms.svg"@.len() == 18 && "ingest.time_ms.svg"@[0] == 'i',
        "ingest.output_size_bytes.svg"@.len() == 28,
        "scan-full.p50_ms.svg"@.len() == 20,
        "scan-project.p50_ms.svg"@.len() == 23,
        "scan-filter-low.p50_ms.svg"@.len() == 26,
        "scan-filter-high.p50_ms.svg"@.len() == 27,
        "take.p50_us.svg"@.len() == 15 && "take.p50_us.svg"@[0] == 't',
        "blob.p50_us.svg"@.len() == 15 && "blob.p50_us.svg"@[0] == 'b',
        "evolve.time_ms.svg"@.len() == 18 && "evolve.time_ms.svg"@[0] == 'e',
        "evolve.bytes_written.svg"@.len() == 24,
{
    reveal_strlit("ingest.time_ms.svg");
    reveal_strlit("ingest.output_size_bytes.svg");
    reveal_strlit("scan-full.p50_ms.svg");
    reveal_strlit("scan-project.p50_ms.svg");
    reveal_strlit("scan-filter-low.p50_ms.svg");
    reveal_strlit("scan-filter-high.p50_ms.svg");
    reveal_strlit("take.p50_us.svg");
    reveal_strlit("blob.p50_us.svg");
    reveal_strlit("evolve.time_ms.svg");
    reveal_strlit("evolve.bytes_written.svg");
}

// ---------------------------------------------------------------------------
// The bars.
// ---------------------------------------------------------------------------

proof fn lemma_variants(keys: Seq<KeyView>, case: CaseView)
    ensures
        lance_variants(keys).contains(case) <==> !case.disable_compression && exists|i: int|
            0 <= i < keys.len() && (#[trigger] keys[i]).engine == EngineName::Lance
                && keys[i].version == Some(case.version) && keys[i].index_columns
                == case.index_columns,
    decreases keys.len(),
{
    let all = lance_variants(keys);
    if keys.len() > 0 {
        let front = keys.drop_last();
        let before = lance_variants(front);
        lemma_variants(front, case);
        if all.contains(case) {
            let k = choose|k: int| 0 <= k < all.len() && all[k] == case;
            if k < before.len() {
                assert(before[k] == case);
                let i = choose|i: int|
                    0 <= i < front.len() && (#[trigger] front[i]).engine == EngineName::Lance
                        && front[i].version == Some(case.version) && front[i].index_columns
                        == case.index_columns;
                assert(keys[i] == front[i]);
            } else {
                assert(keys[keys.len() - 1].engine == EngineName::Lance);
            }
        }
        if !case.disable_compression && exists|i: int|
            0 <= i < keys.len() && (#[trigger] keys[i]).engine == EngineName::Lance
                && keys[i].version == Some(case.version) && keys[i].index_columns
                == case.index_columns {
            let i = choose|i: int|
                0 <= i < keys.len() && (#[trigger] keys[i]).engine == EngineName::Lance
                    && keys[i].version == Some(case.version) && keys[i].index_columns
                    == case.index_columns;
            if i < front.len() {
                assert(front[i] == keys[i]);
                let k = choose|k: int| 0 <= k < before.len() && before[k] == case;
                assert(all[k] == case);
            } else {
                assert(all[all.len() - 1] == case);
            }
        }
    }
}

/// Every result of Parquet and every result of Lance with a file version belongs to exactly one bar
/// of a chart.
pub proof fn law_results_have_one_bar(keys: Seq<KeyView>, j: int)
    requires
        0 <= j < keys.len(),
        (keys[j].engine == EngineName::Lance && keys[j].version is Some) || (keys[j].engine
            == EngineName::Parquet && keys[j].version is None && keys[j].index_columns is None),
    ensures
        exists|b: int|
            0 <= b < bars(keys).len() && bar_matches(
                keys[j],
                keys[j].dataset,
                #[trigger] bars(keys)[b],
                keys[j].workload,
            ),
        forall|b: int, c: int|
            0 <= b < bars(keys).len() && 0 <= c < bars(keys).len() && bar_matches(
                keys[j],
                keys[j].dataset,
                #[trigger] bars(keys)[b],
                keys[j].workload,
            ) && bar_matches(
                keys[j],
                keys[j].dataset,
                #[trigger] bars(keys)[c],
                keys[j].workload,
            ) ==> b == c,
{
    let all = lance_variants(keys);
    let sorted = stable_sort(distinct(all), variant_less());
    let key = keys[j];
    lemma_sorted_set(all, variant_less());
    if key.engine == EngineName::Lance {
        let case = CaseView {
            version: key.version->0,
            disable_compression: false,
            index_columns: key.index_columns,
        };
        lemma_variants(keys, case);
        assert(sorted.contains(case));
        let k = choose|k: int| 0 <= k < sorted.len() && sorted[k] == case;
        assert(bars(keys)[k + 1] == variant_bar(case));
        assert forall|b: int|
            0 <= b < bars(keys).len() && bar_matches(
                key,
                key.dataset,
                #[trigger] bars(keys)[b],
                key.workload,
            ) implies b == k + 1 by {
            if b > 0 {
                assert(bars(keys)[b] == variant_bar(sorted[b - 1]));
                lemma_variants(keys, sorted[b - 1]);
                assert(sorted.contains(sorted[b - 1]));
                assert(sorted[b - 1] == case);
            }
        }
    } else {
        assert(bars(keys)[0] == parquet_bar());
        assert forall|b: int|
            0 <= b < bars(keys).len() && bar_matches(
                key,
                key.dataset,
                #[trigger] bars(keys)[b],
                key.workload,
            ) implies b == 0 by {
            if b > 0 {
                assert(bars(keys)[b] == variant_bar(sorted[b - 1]));
            }
        }
    }
}

/// A chart begins with the bar of Parquet. Every other bar is that of a Lance result, with its file
/// version and index, and labelled as the report labels such a result.
pub proof fn law_bars_are_of_results(keys: Seq<KeyView>, b: int)
    requires
        0 <= b < bars(keys).len(),
    ensures
        b == 0 <==> bars(keys)[b].engine == EngineName::Parquet,
        b == 0 ==> bars(keys)[b].label == "parquet"@,
        b > 0 ==> exists|j: int|
            {
                &&& 0 <= j < keys.len()
                &&& (#[trigger] keys[j]).engine == EngineName::Lance
                &&& bars(keys)[b].engine == EngineName::Lance
                &&& bars(keys)[b].version == keys[j].version
                &&& bars(keys)[b].index_columns == keys[j].index_columns
                &&& bars(keys)[b].label == engine_label(
                    KeyView { disable_compression: false, ..keys[j] },
                )
            },
{
    let all = lance_variants(keys);
    let sorted = stable_sort(distinct(all), variant_less());
    lemma_sorted_set(all, variant_less());
    if b > 0 {
        let case = sorted[b - 1];
        assert(bars(keys)[b] == variant_bar(case));
        assert(sorted.contains(case));
        lemma_variants(keys, case);
        let j = choose|j: int|
            0 <= j < keys.len() && (#[trigger] keys[j]).engine == EngineName::Lance
                && keys[j].version == Some(case.version) && keys[j].index_columns
                == case.index_columns;
        reveal_strlit("");
        let base = "lance@"@ + case.version;
        assert(base + ""@ =~= base);
        assert(variant_bar(case).label =~= engine_label(
            KeyView { disable_compression: false, ..keys[j] },
        ));
    }
}

proof fn lemma_variant_less()
    ensures
        compares_ranks(variant_less()),
{
    let less = variant_less();
    assert forall|a: CaseView, b: CaseView, c: CaseView|
        !#[trigger] less(a, b) && !#[trigger] less(b, c) implies !less(a, c) by {
        let (x, y, z) = (
            opt_text(a.index_columns),
            opt_text(b.index_columns),
            opt_text(c.index_columns),
        );
        lemma_text_less_total(x, y);
        lemma_text_less_total(y, z);
        lemma_text_less_total(x, z);
        lemma_text_less_total(a.version, b.version);
        lemma_text_less_total(b.version, c.version);
        lemma_text_less_total(a.version, c.version);
        if text_less(z, y) && text_less(y, x) {
            lemma_text_less_trans(z, y, x);
        }
        if text_less(c.version, b.version) && text_less(b.version, a.version) {
            lemma_text_less_trans(c.version, b.version, a.version);
        }
    }
    assert forall|a: CaseView, b: CaseView| #[trigger] less(a, b) implies !less(b, a) by {
        lemma_text_less_total(opt_text(a.index_columns), opt_text(b.index_columns));
        lemma_text_less_total(a.version, b.version);
    }
}

/// The bars of Lance stand by file version; of one version, those without an index come first.
pub proof fn law_bars_are_in_order(keys: Seq<KeyView>, a: int, b: int)
    requires
        0 < a < b < bars(keys).len(),
    ensures
        bars(keys)[a].version is Some,
        bars(keys)[b].version is Some,
        !text_less(bars(keys)[b].version->0, bars(keys)[a].version->0),
        bars(keys)[a].version == bars(keys)[b].version && bars(keys)[a].index_columns is Some
            ==> bars(keys)[b].index_columns is Some,
        bars(keys)[a].version == bars(keys)[b].version ==> bars(keys)[a].index_columns != bars(
            keys,
        )[b].index_columns,
{
    let all = lance_variants(keys);
    let sorted = stable_sort(distinct(all), variant_less());
    lemma_sorted_set(all, variant_less());
    lemma_variant_less();
    law_sort_orders(distinct(all), variant_less());
    assert(bars(keys)[a] == variant_bar(sorted[a - 1]));
    assert(bars(keys)[b] == variant_bar(sorted[b - 1]));
    assert(!variant_less()(sorted[b - 1], sorted[a - 1]));
    lemma_text_less_total(sorted[b - 1].version, sorted[a - 1].version);
    assert(sorted.contains(sorted[a - 1]) && sorted.contains(sorted[b - 1]));
    lemma_variants(keys, sorted[a - 1]);
    lemma_variants(keys, sorted[b - 1]);
}

/// The file versions 2.0 and 2.1 and Parquet have colours of their own; with an index a version is
/// drawn darker than without.
pub proof fn law_colors_tell_bars_apart(a: EngineView, b: EngineView)
    requires
        a.engine == EngineName::Lance,
        b.engine == EngineName::Lance,
        a.version == Some("2.0"@) || a.version == Some("2.1"@),
        b.version == Some("2.0"@) || b.version == Some("2.1"@),
    ensures
        bar_color(a) == bar_color(b) <==> a.version == b.version && (a.index_columns is Some
            <==> b.index_columns is Some),
        bar_color(a) != bar_color(parquet_bar()),
        a.version == b.version && a.index_columns is None && b.index_columns is Some ==> {
            &&& bar_color(b).0 < bar_color(a).0
            &&& bar_color(b).1 < bar_color(a).1
            &&& bar_color(b).2 < bar_color(a).2
        },
{
    reveal_strlit("2.0");
    reveal_strlit("2.1");
    assert("2.0"@[2] == '0' && "2.1"@[2] == '1');
}

/// The value of a bar is that of the first result of its dataset, workload, engine, file version and
/// index.
pub proof fn law_bars_are_of_one_result(
    keys: Seq<KeyView>,
    dataset: DatasetName,
    bar: EngineView,
    workload: Workload,
    at: int,
)
    requires
        is_first_of_bar(keys, dataset, bar, workload, at),
    ensures
        0 <= at < keys.len(),
        keys[at].dataset == dataset,
        keys[at].workload == workload,
        keys[at].engine == bar.engine,
        keys[at].version == bar.version,
        keys[at].index_columns == bar.index_columns,
        forall|k: int|
            0 <= k < at ==> (#[trigger] keys[k]).dataset != dataset || keys[k].workload != workload
                || keys[k].engine != bar.engine || keys[k].version != bar.version
                || keys[k].index_columns != bar.index_columns,
{
}

/// How the title of a chart begins.
pub open spec fn title_word(workload: Workload) -> Seq<char> {
    match workload {
        Workload::Ingest => "Ingest time"@,
        Workload::Size => "Ingest output size"@,
        Workload::ScanFull => "Scan (full)"@,
        Workload::ScanProject => "Scan (projection)"@,
        Workload::ScanFilterLow => "Scan (filter low"@,
        Workload::ScanFilterHigh => "Scan (filter high"@,
        Workload::RandomTake => "Random Take"@,
        Workload::RandomBlob => "Random Blob"@,
        Workload::EvolutionBackfill => "Evolution"@,
    }
}

/// The title of a chart names its workload.
pub proof fn law_titles_name_the_workload(i: int)
    requires
        0 <= i < chart_list().len(),
    ensures
        has_prefix(chart_list()[i].1, title_word(chart_list()[i].4)),
{
    reveal_strlit("Ingest time");
    reveal_strlit("Ingest output size");
    reveal_strlit("Scan (full)");
    reveal_strlit("Scan (projection)");
    reveal_strlit("Scan (filter low");
    reveal_strlit("Scan (filter high");
    reveal_strlit("Random Take");
    reveal_strlit("Random Blob");
    reveal_strlit("Evolution");
    reveal_strlit("Scan (full) p50");
    reveal_strlit("Scan (projection) p50");
    reveal_strlit("Scan (filter low selectivity) p50");
    reveal_strlit("Scan (filter high selectivity) p50");
    reveal_strlit("Random Take p50");
    reveal_strlit("Random Blob p50");
    reveal_strlit("Evolution / Backfill time");
    reveal_strlit("Evolution / Backfill bytes written");
    let (file, title, axis, metric, workload) = chart_list()[i];
    let word = title_word(workload);
    assert(i == 0 || i == 1 || i == 2 || i == 3 || i == 4 || i == 5 || i == 6 || i == 7 || i == 8
        || i == 9);
    assert(title.subrange(0, word.len() as int) =~= word);
}

} // verus!
