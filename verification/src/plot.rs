//! What the plots show.
use vstd::prelude::*;

use crate::cases::{case_views, contains_case, keys_of, CaseView, LanceCase};
use crate::records::{index_rank, lance_index_columns_order, KeyView, ResultFile, RunRecord};
use crate::selection::{distinct_names, is_selection, records_of, select_results, Listing};
use crate::sorting::{distinct, sort_by, stable_sort};
use crate::text::{clone_opt, opt_eq, opt_text, opt_view, text_eq, text_less, text_lt};
use crate::workload::{DatasetName, EngineName, Workload};

verus! {

/// The results that the plots show: the newest one of each case.
pub fn load_results(files: Vec<ResultFile>) -> (records: Vec<RunRecord>)
    requires
        distinct_names(files@),
    ensures
        exists|picked: Seq<ResultFile>| #[trigger]
            is_selection(Listing::Plots, files@, picked) && records_of(
                Listing::Plots,
                records@,
                picked,
            ),
{
    select_results(Listing::Plots, files)
}

/// A bar of a chart.
#[derive(Debug)]
pub struct EngineSpec {
    pub engine: EngineName,
    pub lance_file_version: Option<String>,
    pub lance_index_columns: Option<String>,
    pub label: String,
}

/// The contents of an [`EngineSpec`].
#[verifier::ext_equal]
pub struct EngineView {
    pub engine: EngineName,
    pub version: Option<Seq<char>>,
    pub index_columns: Option<Seq<char>>,
    pub label: Seq<char>,
}

impl View for EngineSpec {
    type V = EngineView;

    open spec fn view(&self) -> EngineView {
        EngineView {
            engine: self.engine,
            version: opt_view(self.lance_file_version),
            index_columns: opt_view(self.lance_index_columns),
            label: self.label@,
        }
    }
}

/// The contents of a list of bars.
pub open spec fn engine_views(engines: Seq<EngineSpec>) -> Seq<EngineView> {
    Seq::new(engines.len(), |i: int| engines[i]@)
}

/// The version and index of each Lance record.
pub open spec fn lance_variants(keys: Seq<KeyView>) -> Seq<CaseView>
    decreases keys.len(),
{
    if keys.len() == 0 {
        Seq::empty()
    } else {
        let front = lance_variants(keys.drop_last());
        let key = keys.last();
        match key.version {
            Some(version) if key.engine == EngineName::Lance => front.push(
                CaseView {
                    version,
                    disable_compression: false,
                    index_columns: key.index_columns,
                },
            ),
            _ => front,
        }
    }
}

/// The order of the bars: by version, then by index.
pub open spec fn variant_less() -> spec_fn(CaseView, CaseView) -> bool {
    |a: CaseView, b: CaseView|
        if a.version != b.version {
            text_less(a.version, b.version)
        } else if index_rank(a.index_columns) != index_rank(b.index_columns) {
            index_rank(a.index_columns) < index_rank(b.index_columns)
        } else {
            text_less(opt_text(a.index_columns), opt_text(b.index_columns))
        }
}

/// The bar of a Lance variant.
pub open spec fn variant_bar(case: CaseView) -> EngineView {
    EngineView {
        engine: EngineName::Lance,
        version: Some(case.version),
        index_columns: case.index_columns,
        label: "lance@"@ + case.version + match case.index_columns {
            Some(cols) if cols.len() > 0 => "+idx("@ + cols + ")"@,
            _ => Seq::<char>::empty(),
        },
    }
}

/// The bar of Parquet.
pub open spec fn parquet_bar() -> EngineView {
    EngineView {
        engine: EngineName::Parquet,
        version: None,
        index_columns: None,
        label: "parquet"@,
    }
}

/// The bars of a chart: Parquet first, then each Lance variant once, in order.
pub open spec fn bars(keys: Seq<KeyView>) -> Seq<EngineView> {
    let variants = stable_sort(distinct(lance_variants(keys)), variant_less());
    seq![parquet_bar()] + Seq::new(variants.len(), |i: int| variant_bar(variants[i]))
}

fn variant_before(a: &LanceCase, b: &LanceCase) -> (yes: bool)
    ensures
        yes == variant_less()(a@, b@),
{
    let ia: u8 = lance_index_columns_order(&a.index_columns);
    let ib: u8 = lance_index_columns_order(&b.index_columns);
    if !text_eq(a.file_version.as_str(), b.file_version.as_str()) {
        text_lt(a.file_version.as_str(), b.file_version.as_str())
    } else if ia != ib {
        ia < ib
    } else {
        let ta = match &a.index_columns {
            Some(t) => t.clone(),
            None => String::new(),
        };
        let tb = match &b.index_columns {
            Some(t) => t.clone(),
            None => String::new(),
        };
        text_lt(ta.as_str(), tb.as_str())
    }
}

fn find_variants(records: &Vec<RunRecord>) -> (found: Vec<LanceCase>)
    ensures
        case_views(found@) == distinct(lance_variants(keys_of(records@))),
{
    let ghost keys = keys_of(records@);
    let mut found: Vec<LanceCase> = Vec::new();
    let mut i: usize = 0;
    assert(keys.take(0) =~= Seq::<KeyView>::empty());
    assert(case_views(found@) =~= Seq::<CaseView>::empty());
    while i < records.len()
        invariant
            i <= records.len(),
            keys == keys_of(records@),
            case_views(found@) == distinct(lance_variants(keys.take(i as int))),
        decreases records.len() - i,
    {
        let key = &records[i].key;
        let ghost before = lance_variants(keys.take(i as int));
        assert(keys.take(i as int + 1).drop_last() =~= keys.take(i as int));
        if key.engine == EngineName::Lance {
            match &key.lance_file_version {
                Some(v) => {
                    let case = LanceCase {
                        file_version: v.clone(),
                        disable_compression: false,
                        index_columns: clone_opt(&key.lance_index_columns),
                    };
                    assert(before.push(case@).drop_last() =~= before);
                    if !contains_case(&found, &case) {
                        let ghost earlier = case_views(found@);
                        found.push(case);
                        assert(case_views(found@) =~= earlier.push(case@));
                    }
                },
                None => {},
            }
        }
        i += 1;
    }
    assert(keys.take(keys.len() as int) =~= keys);
    found
}

fn sort_variants(found: Vec<LanceCase>) -> (out: Vec<LanceCase>)
    ensures
        case_views(out@) == stable_sort(case_views(found@), variant_less()),
{
    let ghost view = |case: LanceCase| case@;
    let mut out = found;
    sort_by::<LanceCase, CaseView, _>(&mut out, variant_before, Ghost(view), Ghost(variant_less()));
    assert(found@.map_values(view) =~= case_views(found@));
    assert(out@.map_values(view) =~= case_views(out@));
    out
}

/// The bars of a chart.
pub fn engines_for_report(records: &Vec<RunRecord>) -> (out: Vec<EngineSpec>)
    ensures
        engine_views(out@) == bars(keys_of(records@)),
{
    let variants = sort_variants(find_variants(records));
    let ghost all = case_views(variants@);
    let mut out: Vec<EngineSpec> = Vec::new();
    out.push(
        EngineSpec {
            engine: EngineName::Parquet,
            lance_file_version: None,
            lance_index_columns: None,
            label: "parquet".to_owned(),
        },
    );
    let ghost wanted = seq![parquet_bar()] + Seq::new(all.len(), |i: int| variant_bar(all[i]));
    let mut i: usize = 0;
    assert(engine_views(out@) =~= wanted.take(1));
    while i < variants.len()
        invariant
            i <= variants.len(),
            all == case_views(variants@),
            wanted == seq![parquet_bar()] + Seq::new(all.len(), |i: int| variant_bar(all[i])),
            engine_views(out@) == wanted.take(i as int + 1),
        decreases variants.len() - i,
    {
        let case = &variants[i];
        let mut label = "lance@".to_owned();
        label.append(case.file_version.as_str());
        match &case.index_columns {
            Some(cols) => {
                if !cols.as_str().is_empty() {
                    label.append("+idx(");
                    label.append(cols.as_str());
                    label.append(")");
                }
            },
            None => {},
        }
        let spec_bar = EngineSpec {
            engine: EngineName::Lance,
            lance_file_version: Some(case.file_version.clone()),
            lance_index_columns: clone_opt(&case.index_columns),
            label,
        };
        assert(spec_bar@.label =~= variant_bar(case@).label);
        let ghost earlier = engine_views(out@);
        out.push(spec_bar);
        assert(engine_views(out@) =~= earlier.push(spec_bar@));
        assert(wanted[i as int + 1] == variant_bar(all[i as int]));
        assert(wanted.take(i as int + 2) =~= wanted.take(i as int + 1).push(wanted[i as int + 1]));
        i += 1;
    }
    assert(wanted.take(wanted.len() as int) =~= wanted);
    out
}

/// The colour of a bar as red, green and blue.
pub open spec fn bar_color(bar: EngineView) -> (u8, u8, u8) {
    if bar.engine == EngineName::Parquet {
        (175, 82, 222)
    } else if bar.engine == EngineName::Lance && bar.version == Some("2.0"@) {
        if bar.index_columns is None {
            (220, 78, 65)
        } else {
            (180, 50, 40)
        }
    } else if bar.engine == EngineName::Lance && bar.version == Some("2.1"@) {
        if bar.index_columns is None {
            (33, 150, 83)
        } else {
            (20, 110, 60)
        }
    } else {
        (125, 125, 125)
    }
}

/// The colour of a bar.
pub fn engine_color(engine: &EngineSpec) -> (color: (u8, u8, u8))
    ensures
        color == bar_color(engine@),
{
    if engine.engine == EngineName::Parquet {
        return (175, 82, 222);
    }
    if engine.engine == EngineName::Lance {
        match &engine.lance_file_version {
            Some(v) => {
                if text_eq(v.as_str(), "2.0") {
                    return if engine.lance_index_columns.is_none() {
                        (220, 78, 65)
                    } else {
                        (180, 50, 40)
                    };
                }
                if text_eq(v.as_str(), "2.1") {
                    return if engine.lance_index_columns.is_none() {
                        (33, 150, 83)
                    } else {
                        (20, 110, 60)
                    };
                }
            },
            None => {},
        }
    }
    (125, 125, 125)
}

/// Whether a record belongs to a bar; the compression does not count.
pub open spec fn bar_matches(
    key: KeyView,
    dataset: DatasetName,
    bar: EngineView,
    workload: Workload,
) -> bool {
    &&& key.dataset == dataset
    &&& key.workload == workload
    &&& key.engine == bar.engine
    &&& key.version == bar.version
    &&& key.index_columns == bar.index_columns
}

/// Whether the record at `at` is the first one of a bar.
pub open spec fn is_first_of_bar(
    keys: Seq<KeyView>,
    dataset: DatasetName,
    bar: EngineView,
    workload: Workload,
    at: int,
) -> bool {
    &&& 0 <= at < keys.len()
    &&& bar_matches(keys[at], dataset, bar, workload)
    &&& forall|k: int| 0 <= k < at ==> !bar_matches(#[trigger] keys[k], dataset, bar, workload)
}

/// The position of the first record of a bar.
pub fn find_record(
    records: &Vec<RunRecord>,
    dataset: DatasetName,
    engine: &EngineSpec,
    workload: Workload,
) -> (at: Option<usize>)
    ensures
        match at {
            Some(i) => is_first_of_bar(keys_of(records@), dataset, engine@, workload, i as int),
            None => forall|k: int|
                0 <= k < records.len() ==> !bar_matches(
                    #[trigger] keys_of(records@)[k],
                    dataset,
                    engine@,
                    workload,
                ),
        },
{
    let mut i: usize = 0;
    while i < records.len()
        invariant
            i <= records.len(),
            forall|k: int|
                0 <= k < i ==> !bar_matches(
                    #[trigger] keys_of(records@)[k],
                    dataset,
                    engine@,
                    workload,
                ),
        decreases records.len() - i,
    {
        let key = &records[i].key;
        assert(keys_of(records@)[i as int] == key@);
        if key.dataset == dataset && key.workload == workload && key.engine == engine.engine
            && opt_eq(&key.lance_file_version, &engine.lance_file_version) && opt_eq(
            &key.lance_index_columns,
            &engine.lance_index_columns,
        ) {
            return Some(i);
        }
        i += 1;
    }
    None
}

/// What a chart shows of a result.
#[derive(Debug, Clone, Copy, PartialEq, Eq, Structural)]
pub enum Metric {
    /// The wall time in milliseconds.
    WallMs,
    /// The recorded bytes.
    Bytes,
    /// The median latency, shown in milliseconds.
    P50Ms,
    /// The median latency, shown in microseconds.
    P50Us,
}

/// A chart: its file, titles, and what it shows.
#[derive(Debug, Clone, Copy)]
pub struct Chart {
    pub file: &'static str,
    pub title: &'static str,
    pub y_label: &'static str,
    pub metric: Metric,
    pub workload: Workload,
}

/// The contents of a [`Chart`].
pub open spec fn chart_view(c: Chart) -> (Seq<char>, Seq<char>, Seq<char>, Metric, Workload) {
    (c.file@, c.title@, c.y_label@, c.metric, c.workload)
}

/// The charts, in the order in which they are drawn.
pub open spec fn chart_list() -> Seq<(Seq<char>, Seq<char>, Seq<char>, Metric, Workload)> {
    seq![
        (
            "ingest.time_ms.svg"@,
            "Ingest time"@,
            "Time (ms)"@,
            Metric::WallMs,
            Workload::Ingest,
        ),
        (
            "ingest.output_size_bytes.svg"@,
            "Ingest output size"@,
            "Size (bytes)"@,
            Metric::Bytes,
            Workload::Size,
        ),
        (
            "scan-full.p50_ms.svg"@,
            "Scan (full) p50"@,
            "p50 (ms)"@,
            Metric::P50Ms,
            Workload::ScanFull,
        ),
        (
            "scan-project.p50_ms.svg"@,
            "Scan (projection) p50"@,
            "p50 (ms)"@,
            Metric::P50Ms,
            Workload::ScanProject,
        ),
        (
            "scan-filter-low.p50_ms.svg"@,
            "Scan (filter low selectivity) p50"@,
            "p50 (ms)"@,
            Metric::P50Ms,
            Workload::ScanFilterLow,
        ),
        (
            "scan-filter-high.p50_ms.svg"@,
            "Scan (filter high selectivity) p50"@,
            "p50 (ms)"@,
            Metric::P50Ms,
            Workload::ScanFilterHigh,
        ),
        (
            "take.p50_us.svg"@,
            "Random Take p50"@,
            "p50 (us)"@,
            Metric::P50Us,
            Workload::RandomTake,
        ),
        (
            "blob.p50_us.svg"@,
            "Random Blob p50"@,
            "p50 (us)"@,
            Metric::P50Us,
            Workload::RandomBlob,
        ),
        (
            "evolve.time_ms.svg"@,
            "Evolution / Backfill time"@,
            "Time (ms)"@,
            Metric::WallMs,
            Workload::EvolutionBackfill,
        ),
        (
            "evolve.bytes_written.svg"@,
            "Evolution / Backfill bytes written"@,
            "Bytes written (bytes)"@,
            Metric::Bytes,
            Workload::EvolutionBackfill,
        ),
    ]
}

fn chart(
    file: &'static str,
    title: &'static str,
    y_label: &'static str,
    metric: Metric,
    workload: Workload,
) -> (c: Chart)
    ensures
        chart_view(c) == (file@, title@, y_label@, metric, workload),
{
    Chart { file, title, y_label, metric, workload }
}

/// The charts, in the order in which they are drawn.
pub fn charts() -> (out: Vec<Chart>)
    ensures
        out.len() == chart_list().len(),
        forall|i: int| 0 <= i < out.len() ==> chart_view(#[trigger] out@[i]) == chart_list()[i],
{
    vec![
        chart("ingest.time_ms.svg", "Ingest time", "Time (ms)", Metric::WallMs, Workload::Ingest),
        chart("ingest.output_size_bytes.svg", "Ingest output size", "Size (bytes)", Metric::Bytes, Workload::Size),
        chart("scan-full.p50_ms.svg", "Scan (full) p50", "p50 (ms)", Metric::P50Ms, Workload::ScanFull),
        chart("scan-project.p50_ms.svg", "Scan (projection) p50", "p50 (ms)", Metric::P50Ms, Workload::ScanProject),
        chart("scan-filter-low.p50_ms.svg", "Scan (filter low selectivity) p50", "p50 (ms)", Metric::P50Ms, Workload::ScanFilterLow),
        chart("scan-filter-high.p50_ms.svg", "Scan (filter high selectivity) p50", "p50 (ms)", Metric::P50Ms, Workload::ScanFilterHigh),
        chart("take.p50_us.svg", "Random Take p50", "p50 (us)", Metric::P50Us, Workload::RandomTake),
        chart("blob.p50_us.svg", "Random Blob p50", "p50 (us)", Metric::P50Us, Workload::RandomBlob),
        chart("evolve.time_ms.svg", "Evolution / Backfill time", "Time (ms)", Metric::WallMs, Workload::EvolutionBackfill),
        chart("evolve.bytes_written.svg", "Evolution / Backfill bytes written", "Bytes written (bytes)", Metric::Bytes, Workload::EvolutionBackfill),
    ]
}

/// What a result has for a chart: wall times in milliseconds, sizes in bytes, and medians in
/// microseconds, those of charts in milliseconds too: they are divided where the bar is drawn.
pub open spec fn metric_value(r: RunRecord, metric: Metric) -> Option<u128> {
    match metric {
        Metric::WallMs => Some(r.result.timing.wall_time_ms),
        Metric::Bytes => match r.result.bytes {
            Some(b) => Some(b as u128),
            None => None,
        },
        Metric::P50Ms | Metric::P50Us => match r.result.latency {
            Some(l) => Some(l.p50_us as u128),
            None => None,
        },
    }
}

/// What a bar shows, in the unit of the result: the median of a chart in milliseconds is still in
/// microseconds. Where there is no result there is no bar.
pub fn bar_value(
    records: &Vec<RunRecord>,
    dataset: DatasetName,
    engine: &EngineSpec,
    chart: &Chart,
) -> (value: Option<u128>)
    ensures
        forall|at: int|
            is_first_of_bar(keys_of(records@), dataset, engine@, chart.workload, at) ==> value
                == metric_value(records@[at], chart.metric),
        (forall|k: int|
            0 <= k < records.len() ==> !bar_matches(
                #[trigger] keys_of(records@)[k],
                dataset,
                engine@,
                chart.workload,
            )) ==> value is None,
{
    match find_record(records, dataset, engine, chart.workload) {
        Some(i) => {
            let r = &records[i];
            assert(keys_of(records@)[i as int] == r.key@);
            match chart.metric {
                Metric::WallMs => Some(r.result.timing.wall_time_ms),
                Metric::Bytes => match r.result.bytes {
                    Some(b) => Some(b as u128),
                    None => None,
                },
                Metric::P50Ms | Metric::P50Us => match &r.result.latency {
                    Some(l) => Some(l.p50_us as u128),
                    None => None,
                },
            }
        },
        None => None,
    }
}

} // verus!
