//! Looking up the results of a case, and listing the Lance cases of a dataset.
use vstd::prelude::*;

use crate::records::{
    compression_rank, index_rank, lance_disable_compression_order, lance_file_version_order,
    lance_index_columns_order, version_rank, KeyView, RunKey, RunRecord,
};
use crate::sorting::{distinct, sort_by, stable_sort};
use crate::text::{
    clone_opt, lemma_views_push, list_contains, opt_eq, opt_text, opt_view, text_eq, text_less,
    text_lt, views,
};
use crate::workload::{DatasetName, EngineName, Workload};

verus! {

/// The cases of the records, in their order.
pub open spec fn keys_of(records: Seq<RunRecord>) -> Seq<KeyView> {
    Seq::new(records.len(), |i: int| records[i].key@)
}

/// Whether a record is of the wanted case. The Lance parameters count for Lance; for another
/// engine none may be asked for.
pub open spec fn key_matches(key: KeyView, want: KeyView) -> bool {
    &&& key.dataset == want.dataset
    &&& key.engine == want.engine
    &&& key.workload == want.workload
    &&& if want.engine == EngineName::Lance {
        key.version == want.version && key.disable_compression == want.disable_compression
            && key.index_columns == want.index_columns
    } else {
        !want.disable_compression && want.version is None && want.index_columns is None
    }
}

/// The last record of the wanted case.
pub open spec fn last_match(keys: Seq<KeyView>, want: KeyView) -> Option<int>
    decreases keys.len(),
{
    if keys.len() == 0 {
        None
    } else if key_matches(keys.last(), want) {
        Some(keys.len() - 1)
    } else {
        last_match(keys.drop_last(), want)
    }
}

/// An optional position as an integer.
pub open spec fn opt_pos(at: Option<usize>) -> Option<int> {
    match at {
        Some(i) => Some(i as int),
        None => None,
    }
}

fn is_match(key: &RunKey, want: &RunKey) -> (yes: bool)
    ensures
        yes == key_matches(key@, want@),
{
    if key.dataset != want.dataset || key.engine != want.engine || key.workload != want.workload {
        return false;
    }
    if want.engine == EngineName::Lance {
        opt_eq(&key.lance_file_version, &want.lance_file_version) && key.lance_disable_compression
            == want.lance_disable_compression && opt_eq(
            &key.lance_index_columns,
            &want.lance_index_columns,
        )
    } else {
        !want.lance_disable_compression && want.lance_file_version.is_none()
            && want.lance_index_columns.is_none()
    }
}

/// The position of the last record of a case.
pub fn find_record(records: &Vec<RunRecord>, want: &RunKey) -> (at: Option<usize>)
    ensures
        opt_pos(at) == last_match(keys_of(records@), want@),
        at matches Some(i) ==> i < records.len() && key_matches(records@[i as int].key@, want@),
{
    let ghost keys = keys_of(records@);
    let mut i: usize = records.len();
    assert(keys.take(keys.len() as int) =~= keys);
    while i > 0
        invariant
            i <= records.len(),
            keys == keys_of(records@),
            last_match(keys, want@) == last_match(keys.take(i as int), want@),
        decreases i,
    {
        assert(keys.take(i as int).drop_last() =~= keys.take(i as int - 1));
        if is_match(&records[i - 1].key, want) {
            return Some(i - 1);
        }
        i -= 1;
    }
    None
}

/// A case of a Lance dataset.
#[derive(Debug)]
pub struct LanceCase {
    pub file_version: String,
    pub disable_compression: bool,
    pub index_columns: Option<String>,
}

/// The contents of a [`LanceCase`].
#[verifier::ext_equal]
pub struct CaseView {
    pub version: Seq<char>,
    pub disable_compression: bool,
    pub index_columns: Option<Seq<char>>,
}

impl View for LanceCase {
    type V = CaseView;

    open spec fn view(&self) -> CaseView {
        CaseView {
            version: self.file_version@,
            disable_compression: self.disable_compression,
            index_columns: opt_view(self.index_columns),
        }
    }
}

/// The contents of a list of cases.
pub open spec fn case_views(cases: Seq<LanceCase>) -> Seq<CaseView> {
    Seq::new(cases.len(), |i: int| cases[i]@)
}

/// The key of a case.
pub open spec fn case_key(dataset: DatasetName, workload: Workload, case: CaseView) -> KeyView {
    KeyView {
        dataset,
        engine: EngineName::Lance,
        version: Some(case.version),
        disable_compression: case.disable_compression,
        index_columns: case.index_columns,
        workload,
    }
}

/// The key of a Parquet case.
pub open spec fn parquet_key(dataset: DatasetName, workload: Workload) -> KeyView {
    KeyView {
        dataset,
        engine: EngineName::Parquet,
        version: None,
        disable_compression: false,
        index_columns: None,
        workload,
    }
}

/// The Lance cases of a dataset and workload, one for each record that names a file version.
pub open spec fn all_cases(
    keys: Seq<KeyView>,
    dataset: DatasetName,
    workload: Workload,
) -> Seq<CaseView>
    decreases keys.len(),
{
    if keys.len() == 0 {
        Seq::empty()
    } else {
        let front = all_cases(keys.drop_last(), dataset, workload);
        let key = keys.last();
        match key.version {
            Some(version) if key.dataset == dataset && key.engine == EngineName::Lance
                && key.workload == workload => front.push(
                CaseView {
                    version,
                    disable_compression: key.disable_compression,
                    index_columns: key.index_columns,
                },
            ),
            _ => front,
        }
    }
}

/// The order of cases: by file version, compression and index.
pub open spec fn case_less() -> spec_fn(CaseView, CaseView) -> bool {
    |a: CaseView, b: CaseView|
        {
            let (va, vb) = (version_rank(Some(a.version)), version_rank(Some(b.version)));
            let (ca, cb) = (
                compression_rank(a.disable_compression),
                compression_rank(b.disable_compression),
            );
            let (ia, ib) = (index_rank(a.index_columns), index_rank(b.index_columns));
            if va != vb {
                va < vb
            } else if ca != cb {
                ca < cb
            } else if ia != ib {
                ia < ib
            } else {
                text_less(opt_text(a.index_columns), opt_text(b.index_columns))
            }
        }
}

/// The Lance cases of a dataset and workload: each once, in order.
pub open spec fn lance_cases(
    keys: Seq<KeyView>,
    dataset: DatasetName,
    workload: Workload,
) -> Seq<CaseView> {
    stable_sort(distinct(all_cases(keys, dataset, workload)), case_less())
}

fn case_eq(a: &LanceCase, b: &LanceCase) -> (same: bool)
    ensures
        same == (a@ == b@),
{
    text_eq(a.file_version.as_str(), b.file_version.as_str()) && a.disable_compression
        == b.disable_compression && opt_eq(&a.index_columns, &b.index_columns)
}

fn case_before(a: &LanceCase, b: &LanceCase) -> (yes: bool)
    ensures
        yes == case_less()(a@, b@),
{
    let va: u8 = lance_file_version_order(&Some(a.file_version.clone()));
    let vb: u8 = lance_file_version_order(&Some(b.file_version.clone()));
    let ca: u8 = lance_disable_compression_order(a.disable_compression);
    let cb: u8 = lance_disable_compression_order(b.disable_compression);
    let ia: u8 = lance_index_columns_order(&a.index_columns);
    let ib: u8 = lance_index_columns_order(&b.index_columns);
    if va != vb {
        va < vb
    } else if ca != cb {
        ca < cb
    } else if ia != ib {
        ia < ib
    } else {
        let ta = match &a.index_columns {
            Some(t) => t.clone(),
            None => String::new(),
        };
        let tb = match &b.index_columns {
            Some(t) => t.clone(),
            None => String::new(),
        };
        text_lt(ta.as_str(), tb.as_str())
    }
}

pub(crate) fn contains_case(cases: &Vec<LanceCase>, case: &LanceCase) -> (found: bool)
    ensures
        found == case_views(cases@).contains(case@),
{
    let mut i: usize = 0;
    while i < cases.len()
        invariant
            i <= cases.len(),
            forall|j: int| 0 <= j < i ==> #[trigger] cases@[j]@ != case@,
        decreases cases.len() - i,
    {
        if case_eq(&cases[i], case) {
            assert(case_views(cases@)[i as int] == case@);
            return true;
        }
        i += 1;
    }
    false
}

/// The Lance cases of a dataset and workload.
pub fn lance_cases_for_workload(
    records: &Vec<RunRecord>,
    dataset: DatasetName,
    workload: Workload,
) -> (out: Vec<LanceCase>)
    ensures
        case_views(out@) == lance_cases(keys_of(records@), dataset, workload),
{
    let ghost keys = keys_of(records@);
    let mut found: Vec<LanceCase> = Vec::new();
    let mut i: usize = 0;
    assert(keys.take(0) =~= Seq::<KeyView>::empty());
    assert(case_views(found@) =~= Seq::<CaseView>::empty());
    while i < records.len()
        invariant
            i <= records.len(),
            keys == keys_of(records@),
            case_views(found@) == distinct(all_cases(keys.take(i as int), dataset, workload)),
        decreases records.len() - i,
    {
        let key = &records[i].key;
        let ghost before = all_cases(keys.take(i as int), dataset, workload);
        assert(keys.take(i as int + 1).drop_last() =~= keys.take(i as int));
        if key.dataset == dataset && key.engine == EngineName::Lance && key.workload == workload {
            match &key.lance_file_version {
                Some(v) => {
                    let case = LanceCase {
                        file_version: v.clone(),
                        disable_compression: key.lance_disable_compression,
                        index_columns: clone_opt(&key.lance_index_columns),
                    };
                    assert(before.push(case@).drop_last() =~= before);
                    if !contains_case(&found, &case) {
                        let ghost earlier = case_views(found@);
                        found.push(case);
                        assert(case_views(found@) =~= earlier.push(case@));
                    }
                },
                None => {},
            }
        }
        i += 1;
    }
    assert(keys.take(keys.len() as int) =~= keys);
    sort_cases(found)
}

fn sort_cases(found: Vec<LanceCase>) -> (out: Vec<LanceCase>)
    ensures
        case_views(out@) == stable_sort(case_views(found@), case_less()),
{
    let ghost view = |case: LanceCase| case@;
    let mut out = found;
    sort_by::<LanceCase, CaseView, _>(&mut out, case_before, Ghost(view), Ghost(case_less()));
    assert(found@.map_values(view) =~= case_views(found@));
    assert(out@.map_values(view) =~= case_views(out@));
    out
}

// ---------------------------------------------------------------------------
// File versions.
// ---------------------------------------------------------------------------

/// The order of file versions.
pub open spec fn version_less() -> spec_fn(Seq<char>, Seq<char>) -> bool {
    |a: Seq<char>, b: Seq<char>| version_rank(Some(a)) < version_rank(Some(b))
}

/// The file versions of the plain Lance records of a dataset and workload: those with
/// compression and without an index.
pub open spec fn plain_versions(
    keys: Seq<KeyView>,
    dataset: DatasetName,
    workload: Workload,
) -> Seq<Seq<char>>
    decreases keys.len(),
{
    if keys.len() == 0 {
        Seq::empty()
    } else {
        let front = plain_versions(keys.drop_last(), dataset, workload);
        let key = keys.last();
        match key.version {
            Some(version) if key.dataset == dataset && key.engine == EngineName::Lance
                && key.workload == workload && !key.disable_compression
                && key.index_columns is None => front.push(version),
            _ => front,
        }
    }
}

/// The file versions for the layout note, each once, in order.
pub open spec fn layout_versions(
    keys: Seq<KeyView>,
    dataset: DatasetName,
    workload: Workload,
) -> Seq<Seq<char>> {
    stable_sort(distinct(plain_versions(keys, dataset, workload)), version_less())
}

fn version_before(a: &String, b: &String) -> (yes: bool)
    ensures
        yes == version_less()(a@, b@),
{
    lance_file_version_order(&Some(a.clone())) < lance_file_version_order(&Some(b.clone()))
}

/// Sorts file versions.
pub fn sort_versions(found: Vec<String>) -> (out: Vec<String>)
    ensures
        views(out@) == stable_sort(views(found@), version_less()),
{
    let ghost view = |version: String| version@;
    let mut out = found;
    sort_by::<String, Seq<char>, _>(&mut out, version_before, Ghost(view), Ghost(version_less()));
    assert(found@.map_values(view) =~= views(found@));
    assert(out@.map_values(view) =~= views(out@));
    out
}

/// The file versions for the layout note.
pub fn lance_versions_for_layout(
    records: &Vec<RunRecord>,
    dataset: DatasetName,
    workload: Workload,
) -> (out: Vec<String>)
    ensures
        views(out@) == layout_versions(keys_of(records@), dataset, workload),
{
    let ghost keys = keys_of(records@);
    let mut found: Vec<String> = Vec::new();
    let mut i: usize = 0;
    assert(keys.take(0) =~= Seq::<KeyView>::empty());
    assert(views(found@) =~= Seq::<Seq<char>>::empty());
    while i < records.len()
        invariant
            i <= records.len(),
            keys == keys_of(records@),
            views(found@) == distinct(plain_versions(keys.take(i as int), dataset, workload)),
        decreases records.len() - i,
    {
        let key = &records[i].key;
        let ghost before = plain_versions(keys.take(i as int), dataset, workload);
        assert(keys.take(i as int + 1).drop_last() =~= keys.take(i as int));
        if key.dataset == dataset && key.engine == EngineName::Lance && key.workload == workload
            && !key.lance_disable_compression && key.lance_index_columns.is_none() {
            match &key.lance_file_version {
                Some(v) => {
                    assert(before.push(v@).drop_last() =~= before);
                    if !list_contains(&found, v.as_str()) {
                        proof {
                            lemma_views_push(found@, *v);
                        }
                        found.push(v.clone());
                    }
                },
                None => {},
            }
        }
        i += 1;
    }
    assert(keys.take(keys.len() as int) =~= keys);
    sort_versions(found)
}

} // verus!
