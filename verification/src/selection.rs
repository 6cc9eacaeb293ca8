//! Which of many results count: the newest one of each case, in the order of a listing.
use vstd::prelude::*;

use crate::records::{
    compression_rank, dataset_order, dataset_rank, engine_order, engine_rank, index_rank, key_eq,
    key_of, key_of_file, lance_disable_compression_order, lance_file_version_order,
    lance_index_columns_order, recorded_key, recorded_key_of, version_rank, workload_order,
    workload_rank, KeyView, ResultFile, RunKey, RunRecord,
};
use crate::report::{dataset_display, dataset_name};
use crate::text::{
    bytes_less, bytes_lt, lemma_bytes_less_total, lemma_bytes_less_trans, lemma_text_less_total,
    lemma_text_less_trans, opt_text, text_eq, text_less, text_lt,
};
use crate::workload::{EngineName, Workload};

verus! {

/// For what the results are listed. The report reads a missing dataset or engine off the file
/// name; the two also order the results differently.
#[derive(Debug, Clone, Copy, PartialEq, Eq, Structural)]
pub enum Listing {
    Report,
    Plots,
}

/// Whether a record comes before another in the report: by dataset, engine, file version,
/// compression, index, workload, and last by the name of its file.
pub open spec fn report_before(ka: KeyView, sa: Seq<u8>, kb: KeyView, sb: Seq<u8>) -> bool {
    if dataset_rank(ka.dataset) != dataset_rank(kb.dataset) {
        dataset_rank(ka.dataset) < dataset_rank(kb.dataset)
    } else if engine_rank(ka.engine) != engine_rank(kb.engine) {
        engine_rank(ka.engine) < engine_rank(kb.engine)
    } else if version_rank(ka.version) != version_rank(kb.version) {
        version_rank(ka.version) < version_rank(kb.version)
    } else if ka.disable_compression != kb.disable_compression {
        compression_rank(ka.disable_compression) < compression_rank(kb.disable_compression)
    } else if index_rank(ka.index_columns) != index_rank(kb.index_columns) {
        index_rank(ka.index_columns) < index_rank(kb.index_columns)
    } else if opt_text(ka.index_columns) != opt_text(kb.index_columns) {
        text_less(opt_text(ka.index_columns), opt_text(kb.index_columns))
    } else if workload_rank(ka.workload) != workload_rank(kb.workload) {
        workload_rank(ka.workload) < workload_rank(kb.workload)
    } else {
        bytes_less(sa, sb)
    }
}

fn is_report_before(a: &RunRecord, b: &RunRecord) -> (yes: bool)
    ensures
        yes == report_before(a.key@, a.source@, b.key@, b.source@),
{
    let da: u8 = dataset_order(a.key.dataset);
    let db: u8 = dataset_order(b.key.dataset);
    let ea: u8 = engine_order(a.key.engine);
    let eb: u8 = engine_order(b.key.engine);
    let va: u8 = lance_file_version_order(&a.key.lance_file_version);
    let vb: u8 = lance_file_version_order(&b.key.lance_file_version);
    let ca: u8 = lance_disable_compression_order(a.key.lance_disable_compression);
    let cb: u8 = lance_disable_compression_order(b.key.lance_disable_compression);
    let ia: u8 = lance_index_columns_order(&a.key.lance_index_columns);
    let ib: u8 = lance_index_columns_order(&b.key.lance_index_columns);
    let wa: u8 = workload_order(a.key.workload);
    let wb: u8 = workload_order(b.key.workload);
    if da != db {
        da < db
    } else if ea != eb {
        ea < eb
    } else if va != vb {
        va < vb
    } else if ca != cb {
        ca < cb
    } else if ia != ib {
        ia < ib
    } else {
        let ta = match &a.key.lance_index_columns {
            Some(t) => t.clone(),
            None => String::new(),
        };
        let tb = match &b.key.lance_index_columns {
            Some(t) => t.clone(),
            None => String::new(),
        };
        if !text_eq(ta.as_str(), tb.as_str()) {
            text_lt(ta.as_str(), tb.as_str())
        } else if wa != wb {
            wa < wb
        } else {
            bytes_lt(a.source.as_slice(), b.source.as_slice())
        }
    }
}

/// The name by which the plots order engines.
pub open spec fn engine_sort_name(key: KeyView) -> Seq<char> {
    match key.engine {
        EngineName::Lance => {
            let version = match key.version {
                Some(v) => v,
                None => "?"@,
            };
            let base = "lance@"@ + version + if key.disable_compression {
                "+no-compression"@
            } else {
                ""@
            };
            match key.index_columns {
                Some(cols) if cols.len() > 0 => base + "+idx("@ + cols + ")"@,
                _ => base,
            }
        },
        EngineName::Parquet => "parquet"@,
        EngineName::LanceFragment => "lance-fragment"@,
        EngineName::Unknown => "unknown"@,
    }
}

/// The name by which the plots order engines.
pub fn engine_display_key(key: &RunKey) -> (out: String)
    ensures
        out@ == engine_sort_name(key@),
{
    match key.engine {
        EngineName::Lance => {
            let mut base = "lance@".to_owned();
            match &key.lance_file_version {
                Some(v) => base.append(v.as_str()),
                None => base.append("?"),
            }
            if key.lance_disable_compression {
                base.append("+no-compression");
            } else {
                base.append("");
            }
            match &key.lance_index_columns {
                Some(cols) => {
                    if !cols.as_str().is_empty() {
                        base.append("+idx(");
                        base.append(cols.as_str());
                        base.append(")");
                    }
                },
                None => {},
            }
            base
        },
        EngineName::Parquet => "parquet".to_owned(),
        EngineName::LanceFragment => "lance-fragment".to_owned(),
        EngineName::Unknown => "unknown".to_owned(),
    }
}

/// Where a workload stands among the plots.
pub open spec fn workload_place(workload: Workload) -> u8 {
    match workload {
        Workload::Ingest => 10,
        Workload::ScanFull => 20,
        Workload::ScanProject => 21,
        Workload::ScanFilterLow => 22,
        Workload::ScanFilterHigh => 23,
        Workload::RandomTake => 30,
        Workload::RandomBlob => 31,
        Workload::EvolutionBackfill => 40,
        Workload::Size => 50,
    }
}

/// Where a workload stands among the plots.
pub fn workload_key(workload: Workload) -> (place: u8)
    ensures
        place == workload_place(workload),
{
    match workload {
        Workload::Ingest => 10,
        Workload::ScanFull => 20,
        Workload::ScanProject => 21,
        Workload::ScanFilterLow => 22,
        Workload::ScanFilterHigh => 23,
        Workload::RandomTake => 30,
        Workload::RandomBlob => 31,
        Workload::EvolutionBackfill => 40,
        Workload::Size => 50,
    }
}

/// Whether a record comes before another among the plots: by the names of dataset and engine,
/// then workload, index and last the name of its file.
pub open spec fn plot_before(ka: KeyView, sa: Seq<u8>, kb: KeyView, sb: Seq<u8>) -> bool {
    if dataset_name(ka.dataset) != dataset_name(kb.dataset) {
        text_less(dataset_name(ka.dataset), dataset_name(kb.dataset))
    } else if engine_sort_name(ka) != engine_sort_name(kb) {
        text_less(engine_sort_name(ka), engine_sort_name(kb))
    } else if workload_place(ka.workload) != workload_place(kb.workload) {
        workload_place(ka.workload) < workload_place(kb.workload)
    } else if index_rank(ka.index_columns) != index_rank(kb.index_columns) {
        index_rank(ka.index_columns) < index_rank(kb.index_columns)
    } else if opt_text(ka.index_columns) != opt_text(kb.index_columns) {
        text_less(opt_text(ka.index_columns), opt_text(kb.index_columns))
    } else {
        bytes_less(sa, sb)
    }
}

fn is_plot_before(a: &RunRecord, b: &RunRecord) -> (yes: bool)
    ensures
        yes == plot_before(a.key@, a.source@, b.key@, b.source@),
{
    let da = dataset_display(a.key.dataset);
    let db = dataset_display(b.key.dataset);
    let ea = engine_display_key(&a.key);
    let eb = engine_display_key(&b.key);
    let wa: u8 = workload_key(a.key.workload);
    let wb: u8 = workload_key(b.key.workload);
    let ia: u8 = lance_index_columns_order(&a.key.lance_index_columns);
    let ib: u8 = lance_index_columns_order(&b.key.lance_index_columns);
    if !text_eq(da, db) {
        text_lt(da, db)
    } else if !text_eq(ea.as_str(), eb.as_str()) {
        text_lt(ea.as_str(), eb.as_str())
    } else if wa != wb {
        wa < wb
    } else if ia != ib {
        ia < ib
    } else {
        let ta = match &a.key.lance_index_columns {
            Some(t) => t.clone(),
            None => String::new(),
        };
        let tb = match &b.key.lance_index_columns {
            Some(t) => t.clone(),
            None => String::new(),
        };
        if !text_eq(ta.as_str(), tb.as_str()) {
            text_lt(ta.as_str(), tb.as_str())
        } else {
            bytes_lt(a.source.as_slice(), b.source.as_slice())
        }
    }
}

/// Whether a record comes before another in a listing.
#[verifier::opaque]
pub open spec fn before(
    how: Listing,
    ka: KeyView,
    sa: Seq<u8>,
    kb: KeyView,
    sb: Seq<u8>,
) -> bool {
    match how {
        Listing::Report => report_before(ka, sa, kb, sb),
        Listing::Plots => plot_before(ka, sa, kb, sb),
    }
}

fn is_before(how: Listing, a: &RunRecord, b: &RunRecord) -> (yes: bool)
    ensures
        yes == before(how, a.key@, a.source@, b.key@, b.source@),
{
    reveal(before);
    match how {
        Listing::Report => is_report_before(a, b),
        Listing::Plots => is_plot_before(a, b),
    }
}

proof fn lemma_texts(ta: Seq<char>, tb: Seq<char>, tc: Seq<char>)
    ensures
        text_less(ta, tb) && text_less(tb, tc) ==> text_less(ta, tc),
        ta == tb ==> !text_less(ta, tb),
        text_less(ta, tb) ==> !text_less(tb, ta) && ta != tb,
        text_less(tb, tc) ==> !text_less(tc, tb) && tb != tc,
        text_less(ta, tc) ==> ta != tc,
{
    lemma_text_less_total(ta, tb);
    lemma_text_less_total(tb, tc);
    lemma_text_less_total(ta, tc);
    if text_less(ta, tb) && text_less(tb, tc) {
        lemma_text_less_trans(ta, tb, tc);
    }
}

proof fn lemma_before_trans(
    how: Listing,
    ka: KeyView,
    sa: Seq<u8>,
    kb: KeyView,
    sb: Seq<u8>,
    kc: KeyView,
    sc: Seq<u8>,
)
    requires
        before(how, ka, sa, kb, sb),
        before(how, kb, sb, kc, sc),
    ensures
        before(how, ka, sa, kc, sc),
{
    reveal(before);
    lemma_texts(dataset_name(ka.dataset), dataset_name(kb.dataset), dataset_name(kc.dataset));
    lemma_texts(engine_sort_name(ka), engine_sort_name(kb), engine_sort_name(kc));
    let (ta, tb, tc) = (
        opt_text(ka.index_columns),
        opt_text(kb.index_columns),
        opt_text(kc.index_columns),
    );
    if text_less(ta, tb) && text_less(tb, tc) {
        lemma_text_less_trans(ta, tb, tc);
    }
    lemma_text_less_total(ta, tb);
    lemma_text_less_total(tb, tc);
    lemma_text_less_total(ta, tc);
    if bytes_less(sa, sb) && bytes_less(sb, sc) {
        lemma_bytes_less_trans(sa, sb, sc);
    }
}

proof fn lemma_before_total(how: Listing, ka: KeyView, sa: Seq<u8>, kb: KeyView, sb: Seq<u8>)
    ensures
        sa != sb ==> before(how, ka, sa, kb, sb) || before(how, kb, sb, ka, sa),
        before(how, ka, sa, kb, sb) ==> !before(how, kb, sb, ka, sa),
{
    reveal(before);
    lemma_text_less_total(dataset_name(ka.dataset), dataset_name(kb.dataset));
    lemma_text_less_total(dataset_name(kb.dataset), dataset_name(ka.dataset));
    lemma_text_less_total(engine_sort_name(ka), engine_sort_name(kb));
    lemma_text_less_total(engine_sort_name(kb), engine_sort_name(ka));
    lemma_text_less_total(opt_text(ka.index_columns), opt_text(kb.index_columns));
    lemma_text_less_total(opt_text(kb.index_columns), opt_text(ka.index_columns));
    lemma_bytes_less_total(sa, sb);
    lemma_bytes_less_total(sb, sa);
}

// ---------------------------------------------------------------------------
// The newest result of each case.
// ---------------------------------------------------------------------------

/// The case of a result file.
#[verifier::opaque]
pub open spec fn file_key(how: Listing, f: ResultFile) -> KeyView {
    match how {
        Listing::Report => key_of(f.name@, f.result.meta),
        Listing::Plots => recorded_key(f.result.meta),
    }
}

/// Whether a result takes part in the report at all: fragment level scans do not.
pub open spec fn eligible(how: Listing, f: ResultFile) -> bool {
    file_key(how, f).engine != EngineName::LanceFragment
}

/// Whether a result is newer than another: by the time its run started, then by its file name.
#[verifier::opaque]
pub open spec fn newer(a: ResultFile, b: ResultFile) -> bool {
    let (ta, tb) = (a.result.meta.started_at_unix_ms, b.result.meta.started_at_unix_ms);
    ta > tb || (ta == tb && bytes_less(b.name@, a.name@))
}

/// Whether a result is the newest one of its case.
pub open spec fn chosen(how: Listing, files: Seq<ResultFile>, f: ResultFile) -> bool {
    &&& files.contains(f)
    &&& eligible(how, f)
    &&& forall|g: ResultFile|
        files.contains(g) && file_key(how, g) == file_key(how, f) ==> !#[trigger] newer(g, f)
}

/// Whether no two files have the same name.
pub open spec fn distinct_names(files: Seq<ResultFile>) -> bool {
    forall|i: int, j: int|
        0 <= i < j < files.len() ==> #[trigger] files[i].name@ != #[trigger] files[j].name@
}

/// Whether the files come in the order of the listing.
pub open spec fn in_order(how: Listing, files: Seq<ResultFile>) -> bool {
    forall|i: int, j: int|
        0 <= i < j < files.len() ==> before(
            how,
            file_key(how, #[trigger] files[i]),
            files[i].name@,
            file_key(how, #[trigger] files[j]),
            files[j].name@,
        )
}

/// Whether `picked` lists the newest result of each case, in the order of the listing.
pub open spec fn is_selection(how: Listing, files: Seq<ResultFile>, picked: Seq<ResultFile>) -> bool {
    &&& forall|f: ResultFile| picked.contains(f) <==> #[trigger] chosen(how, files, f)
    &&& in_order(how, picked)
}

/// Whether a record is that of a file.
pub open spec fn record_of(how: Listing, r: RunRecord, f: ResultFile) -> bool {
    r.key@ == file_key(how, f) && r.result == f.result && r.source@ == f.name@
}

/// Whether the records are those of the files.
pub open spec fn records_of(how: Listing, records: Seq<RunRecord>, files: Seq<ResultFile>) -> bool {
    &&& records.len() == files.len()
    &&& forall|i: int| 0 <= i < files.len() ==> record_of(how, #[trigger] records[i], files[i])
}

proof fn lemma_newer_trans(a: ResultFile, b: ResultFile, c: ResultFile)
    requires
        newer(a, b),
        newer(b, c),
    ensures
        newer(a, c),
{
    reveal(newer);
    if bytes_less(c.name@, b.name@) && bytes_less(b.name@, a.name@) {
        lemma_bytes_less_trans(c.name@, b.name@, a.name@);
    }
}

proof fn lemma_newer_total(a: ResultFile, b: ResultFile)
    ensures
        a.name@ != b.name@ ==> newer(a, b) || newer(b, a),
        newer(a, b) ==> !newer(b, a),
{
    reveal(newer);
    lemma_bytes_less_total(a.name@, b.name@);
    lemma_bytes_less_total(b.name@, a.name@);
}

/// Whether the kept results hold one of the case of `g` that is `g` itself or newer.
#[verifier::opaque]
spec fn covered(how: Listing, kept: Seq<ResultFile>, g: ResultFile) -> bool {
    exists|k: int|
        0 <= k < kept.len() && file_key(how, #[trigger] kept[k]) == file_key(how, g) && (g == kept[k]
            || newer(kept[k], g))
}

/// The position of the result that covers `g`.
proof fn cover_position(how: Listing, kept: Seq<ResultFile>, g: ResultFile) -> (k: int)
    requires
        covered(how, kept, g),
    ensures
        0 <= k < kept.len(),
        file_key(how, kept[k]) == file_key(how, g),
        g == kept[k] || newer(kept[k], g),
{
    reveal(covered);
    choose|k: int|
        0 <= k < kept.len() && file_key(how, #[trigger] kept[k]) == file_key(how, g) && (g == kept[k]
            || newer(kept[k], g))
}

proof fn lemma_covered(how: Listing, kept: Seq<ResultFile>, g: ResultFile, k: int)
    requires
        0 <= k < kept.len(),
        file_key(how, kept[k]) == file_key(how, g),
        g == kept[k] || newer(kept[k], g),
    ensures
        covered(how, kept, g),
{
    reveal(covered);
}

/// What the loading loop keeps: `kept` holds, for each case seen, its newest result.
spec fn covers(how: Listing, seen: Seq<ResultFile>, kept: Seq<ResultFile>) -> bool {
    &&& forall|k: int|
        0 <= k < kept.len() ==> seen.contains(#[trigger] kept[k]) && eligible(how, kept[k])
    &&& forall|j: int, k: int|
        0 <= j < k < kept.len() ==> file_key(how, #[trigger] kept[j]) != file_key(how, #[trigger] kept[k])
    &&& forall|g: ResultFile| #[trigger] seen.contains(g) && eligible(how, g) ==> covered(how, kept, g)
    &&& in_order(how, kept)
}

proof fn lemma_covers_selection(how: Listing, seen: Seq<ResultFile>, kept: Seq<ResultFile>)
    requires
        covers(how, seen, kept),
    ensures
        is_selection(how, seen, kept),
{
    assert forall|f: ResultFile| kept.contains(f) <==> #[trigger] chosen(how, seen, f) by {
        if kept.contains(f) {
            let k = choose|k: int| 0 <= k < kept.len() && kept[k] == f;
            assert forall|g: ResultFile|
                seen.contains(g) && file_key(how, g) == file_key(how, f) implies !#[trigger] newer(g, f) by {
                assert(eligible(how, kept[k]));
                let l = cover_position(how, kept, g);
                assert(file_key(how, kept[l]) == file_key(how, kept[k]));
                assert(l == k) by {
                    if l < k {
                        assert(file_key(how, kept[l]) != file_key(how, kept[k]));
                    } else if k < l {
                        assert(file_key(how, kept[k]) != file_key(how, kept[l]));
                    }
                }
                lemma_newer_total(f, g);
                lemma_newer_total(g, f);
            }
        }
        if chosen(how, seen, f) {
            let k = cover_position(how, kept, f);
            assert(seen.contains(kept[k]));
            assert(f == kept[k]);
        }
    }
}

/// A result that does not take part changes nothing.
proof fn lemma_covers_skip(how: Listing, seen: Seq<ResultFile>, f: ResultFile, kept: Seq<ResultFile>)
    requires
        covers(how, seen, kept),
        !eligible(how, f),
    ensures
        covers(how, seq![f] + seen, kept),
{
    let wider = seq![f] + seen;
    assert forall|k: int| 0 <= k < kept.len() implies wider.contains(#[trigger] kept[k]) && eligible(
        how,
        kept[k],
    ) by {
        let i = choose|i: int| 0 <= i < seen.len() && seen[i] == kept[k];
        assert(wider[i + 1] == kept[k]);
    }
    assert forall|g: ResultFile| #[trigger] wider.contains(g) && eligible(how, g) implies covered(
        how,
        kept,
        g,
    ) by {
        let i = choose|i: int| 0 <= i < wider.len() && wider[i] == g;
        assert(seen[i - 1] == g);
        assert(seen.contains(g));
    }
}

/// An older result of a known case changes nothing.
proof fn lemma_covers_older(how: Listing, seen: Seq<ResultFile>, f: ResultFile, kept: Seq<ResultFile>, at: int)
    requires
        covers(how, seen, kept),
        0 <= at < kept.len(),
        file_key(how, kept[at]) == file_key(how, f),
        newer(kept[at], f),
    ensures
        covers(how, seq![f] + seen, kept),
{
    let wider = seq![f] + seen;
    assert forall|k: int| 0 <= k < kept.len() implies wider.contains(#[trigger] kept[k]) && eligible(
        how,
        kept[k],
    ) by {
        let i = choose|i: int| 0 <= i < seen.len() && seen[i] == kept[k];
        assert(wider[i + 1] == kept[k]);
    }
    assert forall|g: ResultFile| #[trigger] wider.contains(g) && eligible(how, g) implies covered(
        how,
        kept,
        g,
    ) by {
        let i = choose|i: int| 0 <= i < wider.len() && wider[i] == g;
        if i == 0 {
            lemma_covered(how, kept, g, at);
        } else {
            assert(seen[i - 1] == g);
            assert(seen.contains(g));
        }
    }
}

/// The kept files without the one at `gone`, where there is one.
spec fn without(kept: Seq<ResultFile>, gone: int) -> Seq<ResultFile> {
    if 0 <= gone < kept.len() {
        kept.remove(gone)
    } else {
        kept
    }
}

/// A newer result takes the place of the kept one of its case; a new case is added.
proof fn lemma_covers_add(
    how: Listing,
    seen: Seq<ResultFile>,
    f: ResultFile,
    kept: Seq<ResultFile>,
    gone: int,
    at: int,
)
    requires
        covers(how, seen, kept),
        eligible(how, f),
        forall|k: int|
            0 <= k < kept.len() && k != gone ==> file_key(how, #[trigger] kept[k]) != file_key(how, f),
        0 <= gone < kept.len() ==> file_key(how, kept[gone]) == file_key(how, f) && newer(f, kept[gone]),
        0 <= at <= without(kept, gone).len(),
        in_order(how, without(kept, gone).insert(at, f)),
    ensures
        covers(how, seq![f] + seen, without(kept, gone).insert(at, f)),
{
    let wider = seq![f] + seen;
    let others = without(kept, gone);
    let after = others.insert(at, f);
    let removed = 0 <= gone < kept.len();
    // where an element of `after` comes from
    let origin = |k: int|
        {
            let l = if k < at {
                k
            } else {
                k - 1
            };
            if removed && l >= gone {
                l + 1
            } else {
                l
            }
        };
    // where an element of `kept` went
    let target = |m: int|
        {
            let l = if removed && m > gone {
                m - 1
            } else {
                m
            };
            if l < at {
                l
            } else {
                l + 1
            }
        };
    assert(wider[0] == f);
    assert forall|k: int| 0 <= k < after.len() && k != at implies 0 <= origin(k) < kept.len()
        && origin(k) != gone && #[trigger] after[k] == kept[origin(k)] by {}
    assert forall|m: int| 0 <= m < kept.len() && !(removed && m == gone) implies 0 <= target(m)
        < after.len() && after[target(m)] == #[trigger] kept[m] by {}
    assert forall|k: int| 0 <= k < after.len() implies wider.contains(#[trigger] after[k])
        && eligible(how, after[k]) by {
        if k != at {
            assert(seen.contains(kept[origin(k)]));
            let i = choose|i: int| 0 <= i < seen.len() && seen[i] == kept[origin(k)];
            assert(wider[i + 1] == after[k]);
        }
    }
    assert forall|j: int, k: int| 0 <= j < k < after.len() implies file_key(how, #[trigger] after[j])
        != file_key(how, #[trigger] after[k]) by {
        if j != at && k != at {
            assert(origin(j) < origin(k));
            assert(file_key(how, kept[origin(j)]) != file_key(how, kept[origin(k)]));
        } else if j == at {
            assert(file_key(how, kept[origin(k)]) != file_key(how, f));
        } else {
            assert(file_key(how, kept[origin(j)]) != file_key(how, f));
        }
    }
    assert forall|g: ResultFile| #[trigger] wider.contains(g) && eligible(how, g) implies covered(
        how,
        after,
        g,
    ) by {
        let i = choose|i: int| 0 <= i < wider.len() && wider[i] == g;
        if i == 0 {
            lemma_covered(how, after, g, at);
        } else {
            assert(seen[i - 1] == g);
            assert(seen.contains(g));
            let m = cover_position(how, kept, g);
            if removed && m == gone {
                if g != kept[m] {
                    lemma_newer_trans(f, kept[m], g);
                }
                lemma_covered(how, after, g, at);
            } else {
                lemma_covered(how, after, g, target(m));
            }
        }
    }
}

/// The record of a file.
fn record_from(how: Listing, f: ResultFile) -> (r: RunRecord)
    ensures
        record_of(how, r, f),
{
    reveal(file_key);
    let key = match how {
        Listing::Report => key_of_file(&f.name, &f.result.meta),
        Listing::Plots => recorded_key_of(&f.result.meta),
    };
    RunRecord { key, result: f.result, source: f.name }
}

/// The position of the record of a case.
fn find_key(records: &Vec<RunRecord>, key: &RunKey) -> (at: Option<usize>)
    ensures
        match at {
            Some(i) => i < records.len() && records@[i as int].key@ == key@,
            None => forall|i: int| 0 <= i < records.len() ==> #[trigger] records@[i].key@ != key@,
        },
{
    let mut i: usize = 0;
    while i < records.len()
        invariant
            i <= records.len(),
            forall|j: int| 0 <= j < i ==> #[trigger] records@[j].key@ != key@,
        decreases records.len() - i,
    {
        if key_eq(&records[i].key, key) {
            return Some(i);
        }
        i += 1;
    }
    None
}

fn is_newer(how: Listing, a: &RunRecord, b: &RunRecord, Ghost(fa): Ghost<ResultFile>, Ghost(fb): Ghost<ResultFile>) -> (yes: bool)
    requires
        record_of(how, *a, fa),
        record_of(how, *b, fb),
    ensures
        yes == newer(fa, fb),
{
    reveal(newer);
    let ta: u128 = a.result.meta.started_at_unix_ms;
    let tb: u128 = b.result.meta.started_at_unix_ms;
    ta > tb || (ta == tb && bytes_lt(b.source.as_slice(), a.source.as_slice()))
}

/// Puts a record where it belongs in the order of the listing.
fn insert_in_order(
    how: Listing,
    records: &mut Vec<RunRecord>,
    r: RunRecord,
    Ghost(kept): Ghost<Seq<ResultFile>>,
    Ghost(f): Ghost<ResultFile>,
) -> (at: Ghost<int>)
    requires
        records_of(how, old(records)@, kept),
        in_order(how, kept),
        record_of(how, r, f),
        forall|k: int| 0 <= k < kept.len() ==> #[trigger] kept[k].name@ != f.name@,
    ensures
        0 <= at@ <= kept.len(),
        records_of(how, final(records)@, kept.insert(at@, f)),
        in_order(how, kept.insert(at@, f)),
{
    let ghost start = records@;
    let mut i: usize = 0;
    while i < records.len() && is_before(how, &records[i], &r)
        invariant
            i <= records.len(),
            records@ == start,
            records_of(how, start, kept),
            record_of(how, r, f),
            forall|k: int|
                0 <= k < i ==> before(
                    how,
                    file_key(how, #[trigger] kept[k]),
                    kept[k].name@,
                    file_key(how, f),
                    f.name@,
                ),
        decreases records.len() - i,
    {
        assert(record_of(how, records@[i as int], kept[i as int]));
        i += 1;
    }
    let ghost at = i as int;
    proof {
        assert forall|k: int| at <= k < kept.len() implies before(
            how,
            file_key(how, f),
            f.name@,
            file_key(how, #[trigger] kept[k]),
            kept[k].name@,
        ) by {
            assert(record_of(how, start[at], kept[at]));
            lemma_before_total(how, file_key(how, kept[at]), kept[at].name@, file_key(how, f), f.name@);
            if k > at {
                lemma_before_trans(
                    how,
                    file_key(how, f),
                    f.name@,
                    file_key(how, kept[at]),
                    kept[at].name@,
                    file_key(how, kept[k]),
                    kept[k].name@,
                );
            }
        }
    }
    records.insert(i, r);
    proof {
        let after = kept.insert(at, f);
        assert forall|j: int, k: int| 0 <= j < k < after.len() implies before(
            how,
            file_key(how, #[trigger] after[j]),
            after[j].name@,
            file_key(how, #[trigger] after[k]),
            after[k].name@,
        ) by {
            if k < at {
                assert(after[j] == kept[j] && after[k] == kept[k]);
            } else if k == at {
                assert(after[j] == kept[j]);
            } else if j < at {
                assert(after[j] == kept[j] && after[k] == kept[k - 1]);
            } else if j == at {
                assert(after[k] == kept[k - 1]);
            } else {
                assert(after[j] == kept[j - 1] && after[k] == kept[k - 1]);
            }
        }
        assert forall|k: int| 0 <= k < after.len() implies record_of(
            how,
            #[trigger] records@[k],
            after[k],
        ) by {
            if k < at {
                assert(record_of(how, start[k], kept[k]));
            } else if k > at {
                assert(record_of(how, start[k - 1], kept[k - 1]));
            }
        }
    }
    Ghost(at)
}

/// Picks, of all results, the newest one of each case, in the order of the listing.
pub fn select_results(how: Listing, files: Vec<ResultFile>) -> (records: Vec<RunRecord>)
    requires
        distinct_names(files@),
    ensures
        exists|picked: Seq<ResultFile>| #[trigger]
            is_selection(how, files@, picked) && records_of(how, records@, picked),
{
    let ghost all = files@;
    let mut rest = files;
    let mut records: Vec<RunRecord> = Vec::new();
    let ghost mut kept: Seq<ResultFile> = Seq::empty();
    while rest.len() > 0
        invariant
            rest.len() <= all.len(),
            rest@ == all.take(rest.len() as int),
            distinct_names(all),
            covers(how, all.skip(rest.len() as int), kept),
            records_of(how, records@, kept),
        decreases rest.len(),
    {
        let ghost n = rest.len() as int;
        let ghost seen = all.skip(n);
        let ghost f = all[n - 1];
        let file = rest.pop().unwrap();
        assert(rest@ =~= all.take(n - 1));
        assert(all.skip(n - 1) =~= seq![f] + seen);
        proof {
            assert forall|k: int| 0 <= k < kept.len() implies #[trigger] kept[k].name@ != f.name@ by {
                assert(seen.contains(kept[k]));
                let i = choose|i: int| 0 <= i < seen.len() && seen[i] == kept[k];
                assert(all[n - 1].name@ != all[n + i].name@);
            }
        }
        let record = record_from(how, file);
        if record.key.engine == EngineName::LanceFragment {
            proof {
                assert(record.key@.engine == EngineName::LanceFragment);
                lemma_covers_skip(how, seen, f, kept);
            }
        } else {
            assert(record.key@.engine != EngineName::LanceFragment);
            match find_key(&records, &record.key) {
                Some(i) => {
                    let ghost gone = i as int;
                    assert(record_of(how, records@[gone], kept[gone]));
                    if is_newer(how, &record, &records[i], Ghost(f), Ghost(kept[gone])) {
                        let ghost before_removal = records@;
                        let _ = records.remove(i);
                        proof {
                            lemma_removed_in_order(how, kept, gone);
                            assert forall|k: int| 0 <= k < kept.remove(gone).len() implies record_of(
                                how,
                                #[trigger] records@[k],
                                kept.remove(gone)[k],
                            ) by {
                                let l = if k < gone {
                                    k
                                } else {
                                    k + 1
                                };
                                assert(record_of(how, before_removal[l], kept[l]));
                            }
                            assert forall|k: int| 0 <= k < kept.remove(gone).len() implies (
                            #[trigger] kept.remove(gone)[k]).name@ != f.name@ by {
                                let l = if k < gone {
                                    k
                                } else {
                                    k + 1
                                };
                                assert(kept[l].name@ != f.name@);
                            }
                            assert forall|k: int| 0 <= k < kept.len() && k != gone implies file_key(
                                how,
                                #[trigger] kept[k],
                            ) != file_key(how, f) by {
                                if k < gone {
                                    assert(file_key(how, kept[k]) != file_key(how, kept[gone]));
                                } else {
                                    assert(file_key(how, kept[gone]) != file_key(how, kept[k]));
                                }
                            }
                        }
                        let at = insert_in_order(
                            how,
                            &mut records,
                            record,
                            Ghost(kept.remove(gone)),
                            Ghost(f),
                        );
                        proof {
                            lemma_covers_add(how, seen, f, kept, gone, at@);
                            kept = kept.remove(gone).insert(at@, f);
                        }
                    } else {
                        proof {
                            lemma_newer_total(f, kept[gone]);
                            lemma_covers_older(how, seen, f, kept, gone);
                        }
                    }
                },
                None => {
                    proof {
                        assert forall|k: int| 0 <= k < kept.len() implies file_key(
                            how,
                            #[trigger] kept[k],
                        ) != file_key(how, f) by {
                            assert(record_of(how, records@[k], kept[k]));
                        }
                    }
                    let at = insert_in_order(how, &mut records, record, Ghost(kept), Ghost(f));
                    proof {
                        lemma_covers_add(how, seen, f, kept, kept.len() as int, at@);
                        kept = kept.insert(at@, f);
                    }
                },
            }
        }
    }
    proof {
        assert(all.skip(0) =~= all);
        lemma_covers_selection(how, all, kept);
    }
    records
}

proof fn lemma_removed_in_order(how: Listing, kept: Seq<ResultFile>, gone: int)
    requires
        in_order(how, kept),
        0 <= gone < kept.len(),
    ensures
        in_order(how, kept.remove(gone)),
{
    let rest = kept.remove(gone);
    assert forall|i: int, j: int| 0 <= i < j < rest.len() implies before(
        how,
        file_key(how, #[trigger] rest[i]),
        rest[i].name@,
        file_key(how, #[trigger] rest[j]),
        rest[j].name@,
    ) by {
        let ii = if i < gone {
            i
        } else {
            i + 1
        };
        let jj = if j < gone {
            j
        } else {
            j + 1
        };
        assert(rest[i] == kept[ii] && rest[j] == kept[jj]);
    }
}

/// The selection depends on which results there are, not on the order in which they were found.
pub proof fn law_selection_ignores_order(
    how: Listing,
    a: Seq<ResultFile>,
    b: Seq<ResultFile>,
    p: Seq<ResultFile>,
    q: Seq<ResultFile>,
)
    requires
        forall|f: ResultFile| a.contains(f) <==> b.contains(f),
        is_selection(how, a, p),
        is_selection(how, b, q),
    ensures
        p == q,
{
    assert forall|f: ResultFile| p.contains(f) <==> q.contains(f) by {
        assert(chosen(how, a, f) <==> chosen(how, b, f));
    }
    lemma_sorted_unique(how, p, q);
}

/// Two lists in order with the same elements are the same list.
proof fn lemma_sorted_unique(how: Listing, p: Seq<ResultFile>, q: Seq<ResultFile>)
    requires
        in_order(how, p),
        in_order(how, q),
        forall|f: ResultFile| p.contains(f) <==> q.contains(f),
    ensures
        p == q,
    decreases p.len(),
{
    if p.len() == 0 {
        if q.len() > 0 {
            assert(q.contains(q[0]));
        }
        assert(p =~= q);
    } else {
        assert(p.contains(p[0]));
        let i = choose|i: int| 0 <= i < q.len() && q[i] == p[0];
        assert(q.contains(q[0]));
        let j = choose|j: int| 0 <= j < p.len() && p[j] == q[0];
        if i != 0 && j != 0 {
            assert(before(how, file_key(how, q[0]), q[0].name@, file_key(how, q[i]), q[i].name@));
            assert(before(how, file_key(how, p[0]), p[0].name@, file_key(how, p[j]), p[j].name@));
            lemma_before_total(how, file_key(how, q[0]), q[0].name@, file_key(how, p[0]), p[0].name@);
        }
        assert(p[0] == q[0]);
        let (pr, qr) = (p.drop_first(), q.drop_first());
        assert forall|f: ResultFile| pr.contains(f) <==> qr.contains(f) by {
            lemma_rest_contains(how, p, f);
            lemma_rest_contains(how, q, f);
        }
        assert(in_order(how, pr)) by {
            assert forall|i: int, j: int| 0 <= i < j < pr.len() implies before(
                how,
                file_key(how, #[trigger] pr[i]),
                pr[i].name@,
                file_key(how, #[trigger] pr[j]),
                pr[j].name@,
            ) by {
                assert(pr[i] == p[i + 1] && pr[j] == p[j + 1]);
            }
        }
        assert(in_order(how, qr)) by {
            assert forall|i: int, j: int| 0 <= i < j < qr.len() implies before(
                how,
                file_key(how, #[trigger] qr[i]),
                qr[i].name@,
                file_key(how, #[trigger] qr[j]),
                qr[j].name@,
            ) by {
                assert(qr[i] == q[i + 1] && qr[j] == q[j + 1]);
            }
        }
        lemma_sorted_unique(how, pr, qr);
        assert(p =~= seq![p[0]] + pr);
        assert(q =~= seq![q[0]] + qr);
    }
}

/// In a list in order the first element does not come again.
proof fn lemma_rest_contains(how: Listing, p: Seq<ResultFile>, f: ResultFile)
    requires
        in_order(how, p),
        p.len() > 0,
    ensures
        p.drop_first().contains(f) <==> p.contains(f) && f != p[0],
{
    let pr = p.drop_first();
    if pr.contains(f) {
        let i = choose|i: int| 0 <= i < pr.len() && pr[i] == f;
        assert(p[i + 1] == f);
        assert(before(how, file_key(how, p[0]), p[0].name@, file_key(how, p[i + 1]), p[i + 1].name@));
        lemma_before_total(how, file_key(how, p[0]), p[0].name@, file_key(how, f), f.name@);
    }
    if p.contains(f) && f != p[0] {
        let i = choose|i: int| 0 <= i < p.len() && p[i] == f;
        assert(pr[i - 1] == f);
    }
}

/// A report holds one result per case, and none of a fragment level scan.
pub proof fn law_one_result_per_case(how: Listing, files: Seq<ResultFile>, picked: Seq<ResultFile>, i: int, j: int)
    requires
        distinct_names(files),
        is_selection(how, files, picked),
        0 <= i < j < picked.len(),
    ensures
        file_key(how, picked[i]) != file_key(how, picked[j]),
        eligible(how, picked[i]) && eligible(how, picked[j]),
{
    let (a, b) = (picked[i], picked[j]);
    assert(picked.contains(a) && picked.contains(b));
    assert(chosen(how, files, a) && chosen(how, files, b));
    lemma_newer_total(a, b);
    lemma_before_total(how, file_key(how, a), a.name@, file_key(how, b), b.name@);
    lemma_before_total(how, file_key(how, b), b.name@, file_key(how, a), a.name@);
    if file_key(how, a) == file_key(how, b) {
        assert(!newer(a, b) && !newer(b, a));
        let m = choose|m: int| 0 <= m < files.len() && files[m] == a;
        let n = choose|n: int| 0 <= n < files.len() && files[n] == b;
        if m < n {
            assert(files[m].name@ != files[n].name@);
        } else if n < m {
            assert(files[n].name@ != files[m].name@);
        }
        assert(before(how, file_key(how, picked[i]), a.name@, file_key(how, picked[j]), b.name@));
    }
}

} // verus!
