//! What holds of the tables of the report: which results they show, and where.
use vstd::prelude::*;

use crate::cases::{
    all_cases, case_key, case_less, key_matches, lance_cases, last_match, parquet_key, CaseView,
};
use crate::records::{version_rank, KeyView};
use crate::report::{
    case_lines, dataset_lines, dataset_name, engine_label, lines_text, report_datasets, table_lines,
};
use crate::report_laws::lemma_last_match;
use crate::sorting::{
    compares_ranks, distinct, law_distinct, law_sort_keeps_elements, law_sort_orders,
    stable_sort,
};
use crate::text::{has_prefix, lemma_text_less_total, lemma_text_less_trans, opt_text, text_less};
use crate::workload::{DatasetName, EngineName, Workload};

verus! {

// ---------------------------------------------------------------------------
// Which results a table shows.
// ---------------------------------------------------------------------------

/// Whether two results are of one case. The Lance parameters count for Lance only.
pub open spec fn same_case(a: KeyView, b: KeyView) -> bool {
    &&& a.dataset == b.dataset
    &&& a.engine == b.engine
    &&& a.workload == b.workload
    &&& a.engine == EngineName::Lance ==> a.version == b.version && a.disable_compression
        == b.disable_compression && a.index_columns == b.index_columns
}

/// Whether a table can show a result: one of Parquet, or one of Lance with a file version.
pub open spec fn can_be_shown(key: KeyView) -> bool {
    key.engine == EngineName::Parquet || (key.engine == EngineName::Lance && key.version is Some)
}

/// Whether the record at `i` is the newest of its case.
pub open spec fn is_newest(keys: Seq<KeyView>, i: int) -> bool {
    &&& 0 <= i < keys.len()
    &&& forall|j: int| i < j < keys.len() ==> !same_case(#[trigger] keys[j], keys[i])
}

pub(crate) proof fn lemma_sorted_set<T>(s: Seq<T>, less: spec_fn(T, T) -> bool)
    ensures
        forall|x: T| #[trigger] stable_sort(distinct(s), less).contains(x) <==> s.contains(x),
        stable_sort(distinct(s), less).no_duplicates(),
{
    law_distinct(s);
    law_sort_keeps_elements(distinct(s), less);
    let (a, b) = (distinct(s), stable_sort(distinct(s), less));
    a.to_multiset_ensures();
    b.to_multiset_ensures();
    a.lemma_multiset_has_no_duplicates();
    b.lemma_multiset_has_no_duplicates_conv();
    assert forall|x: T| #[trigger] b.contains(x) <==> s.contains(x) by {
        assert(a.contains(x) <==> a.to_multiset().count(x) > 0);
        assert(b.contains(x) <==> b.to_multiset().count(x) > 0);
    }
}

proof fn lemma_all_cases(keys: Seq<KeyView>, dataset: DatasetName, workload: Workload, case: CaseView)
    ensures
        all_cases(keys, dataset, workload).contains(case) <==> exists|i: int|
            0 <= i < keys.len() && #[trigger] keys[i] == case_key(dataset, workload, case),
    decreases keys.len(),
{
    let all = all_cases(keys, dataset, workload);
    let want = case_key(dataset, workload, case);
    if keys.len() > 0 {
        let front = keys.drop_last();
        let before = all_cases(front, dataset, workload);
        lemma_all_cases(front, dataset, workload, case);
        if all.contains(case) {
            let k = choose|k: int| 0 <= k < all.len() && all[k] == case;
            if k < before.len() {
                assert(before[k] == case);
                let i = choose|i: int| 0 <= i < front.len() && #[trigger] front[i] == want;
                assert(keys[i] == want);
            } else {
                assert(keys[keys.len() - 1] == want);
            }
        }
        if exists|i: int| 0 <= i < keys.len() && #[trigger] keys[i] == want {
            let i = choose|i: int| 0 <= i < keys.len() && #[trigger] keys[i] == want;
            if i < front.len() {
                assert(front[i] == want);
                let k = choose|k: int| 0 <= k < before.len() && before[k] == case;
                assert(all[k] == case);
            } else {
                assert(all[all.len() - 1] == case);
            }
        }
    }
}

proof fn lemma_case_lines(
    keys: Seq<KeyView>,
    dataset: DatasetName,
    workload: Workload,
    cases: Seq<CaseView>,
)
    requires
        forall|k: int|
            0 <= k < cases.len() ==> last_match(
                keys,
                case_key(dataset, workload, #[trigger] cases[k]),
            ) is Some,
    ensures
        case_lines(keys, dataset, workload, cases) == Seq::new(
            cases.len(),
            |k: int| (dataset, last_match(keys, case_key(dataset, workload, cases[k]))->0),
        ),
    decreases cases.len(),
{
    if cases.len() > 0 {
        let front = cases.drop_last();
        assert forall|k: int| 0 <= k < front.len() implies last_match(
            keys,
            case_key(dataset, workload, #[trigger] front[k]),
        ) is Some by {
            assert(front[k] == cases[k]);
        }
        lemma_case_lines(keys, dataset, workload, front);
        assert(last_match(keys, case_key(dataset, workload, cases[cases.len() - 1])) is Some);
    }
}

/// What the lines of the Lance cases are.
proof fn lemma_lance_lines(keys: Seq<KeyView>, dataset: DatasetName, workload: Workload)
    ensures
        ({
            let cases = lance_cases(keys, dataset, workload);
            let lines = case_lines(keys, dataset, workload, cases);
            &&& lines.len() == cases.len()
            &&& cases.no_duplicates()
            &&& forall|k: int|
                0 <= k < lines.len() ==> {
                    &&& (#[trigger] lines[k]).0 == dataset
                    &&& is_newest(keys, lines[k].1)
                    &&& keys[lines[k].1] == case_key(dataset, workload, cases[k])
                }
            &&& forall|j: int|
                0 <= j < keys.len() && (#[trigger] keys[j]).dataset == dataset && keys[j].workload
                    == workload && keys[j].engine == EngineName::Lance && keys[j].version is Some
                    ==> exists|k: int|
                    0 <= k < lines.len() && same_case(keys[(#[trigger] lines[k]).1], keys[j])
                        && lines[k].1 >= j
        }),
{
    let all = all_cases(keys, dataset, workload);
    let cases = lance_cases(keys, dataset, workload);
    let lines = case_lines(keys, dataset, workload, cases);
    lemma_sorted_set(all, case_less());
    assert forall|k: int| 0 <= k < cases.len() implies last_match(
        keys,
        case_key(dataset, workload, #[trigger] cases[k]),
    ) is Some by {
        let want = case_key(dataset, workload, cases[k]);
        assert(cases.contains(cases[k]));
        lemma_all_cases(keys, dataset, workload, cases[k]);
        lemma_last_match(keys, want);
        let i = choose|i: int| 0 <= i < keys.len() && #[trigger] keys[i] == want;
        assert(key_matches(keys[i], want));
    }
    lemma_case_lines(keys, dataset, workload, cases);
    assert forall|k: int| 0 <= k < lines.len() implies {
        &&& (#[trigger] lines[k]).0 == dataset
        &&& is_newest(keys, lines[k].1)
        &&& keys[lines[k].1] == case_key(dataset, workload, cases[k])
    } by {
        lemma_last_match(keys, case_key(dataset, workload, cases[k]));
    }
    assert forall|j: int|
        0 <= j < keys.len() && (#[trigger] keys[j]).dataset == dataset && keys[j].workload
            == workload && keys[j].engine == EngineName::Lance && keys[j].version is Some implies
        exists|k: int|
            0 <= k < lines.len() && same_case(keys[(#[trigger] lines[k]).1], keys[j])
                && lines[k].1 >= j by {
        let case = CaseView {
            version: keys[j].version->0,
            disable_compression: keys[j].disable_compression,
            index_columns: keys[j].index_columns,
        };
        assert(keys[j] == case_key(dataset, workload, case));
        lemma_all_cases(keys, dataset, workload, case);
        assert(cases.contains(case));
        let k = choose|k: int| 0 <= k < cases.len() && cases[k] == case;
        assert(is_newest(keys, lines[k].1));
        assert(keys[lines[k].1] == keys[j]);
        if lines[k].1 < j {
            assert(same_case(keys[j], keys[lines[k].1]));
        }
    }
}

/// A table shows results of its workload only, each in a line of its own dataset, and of each case
/// the newest.
pub proof fn law_tables_show_the_newest(
    keys: Seq<KeyView>,
    workload: Workload,
    datasets: Seq<DatasetName>,
    k: int,
)
    requires
        0 <= k < table_lines(keys, workload, datasets).len(),
    ensures
        ({
            let (dataset, i) = table_lines(keys, workload, datasets)[k];
            &&& datasets.contains(dataset)
            &&& is_newest(keys, i)
            &&& keys[i].dataset == dataset
            &&& keys[i].workload == workload
            &&& can_be_shown(keys[i])
        }),
    decreases datasets.len(),
{
    let front = datasets.drop_last();
    let before = table_lines(keys, workload, front);
    if k < before.len() {
        law_tables_show_the_newest(keys, workload, front, k);
        let dataset = before[k].0;
        let i = choose|i: int| 0 <= i < front.len() && front[i] == dataset;
        assert(datasets[i] == dataset);
    } else {
        let dataset = datasets.last();
        assert(datasets[datasets.len() - 1] == dataset);
        lemma_last_match(keys, parquet_key(dataset, workload));
        lemma_lance_lines(keys, dataset, workload);
        let lines = case_lines(keys, dataset, workload, lance_cases(keys, dataset, workload));
        let at = k - before.len();
        let first: int = if last_match(keys, parquet_key(dataset, workload)) is Some {
            1
        } else {
            0
        };
        if at >= first {
            assert(table_lines(keys, workload, datasets)[k] == lines[at - first]);
        }
    }
}

/// Every case that a table can show is in it: a result of a listed dataset has a line, which shows
/// it or a newer one of its case.
pub proof fn law_tables_show_every_case(
    keys: Seq<KeyView>,
    workload: Workload,
    datasets: Seq<DatasetName>,
    j: int,
)
    requires
        0 <= j < keys.len(),
        keys[j].workload == workload,
        datasets.contains(keys[j].dataset),
        can_be_shown(keys[j]),
    ensures
        exists|k: int|
            0 <= k < table_lines(keys, workload, datasets).len() && (#[trigger] table_lines(
                keys,
                workload,
                datasets,
            )[k]).1 >= j && same_case(keys[table_lines(keys, workload, datasets)[k].1], keys[j]),
    decreases datasets.len(),
{
    let front = datasets.drop_last();
    let before = table_lines(keys, workload, front);
    let lines = table_lines(keys, workload, datasets);
    let dataset = keys[j].dataset;
    let d = choose|d: int| 0 <= d < datasets.len() && datasets[d] == dataset;
    if d < front.len() {
        assert(front[d] == dataset);
        law_tables_show_every_case(keys, workload, front, j);
        let k = choose|k: int|
            0 <= k < before.len() && (#[trigger] before[k]).1 >= j && same_case(
                keys[before[k].1],
                keys[j],
            );
        assert(lines[k] == before[k]);
    } else {
        let want = parquet_key(dataset, workload);
        let cases = case_lines(keys, dataset, workload, lance_cases(keys, dataset, workload));
        lemma_last_match(keys, want);
        lemma_lance_lines(keys, dataset, workload);
        let first: int = if last_match(keys, want) is Some {
            1
        } else {
            0
        };
        if keys[j].engine == EngineName::Parquet {
            assert(key_matches(keys[j], want));
            let i = last_match(keys, want)->0;
            assert(lines[before.len() as int] == (dataset, i));
        } else {
            let k = choose|k: int|
                0 <= k < cases.len() && same_case(keys[(#[trigger] cases[k]).1], keys[j])
                    && cases[k].1 >= j;
            assert(lines[before.len() + first + k] == cases[k]);
        }
    }
}

/// No result stands in a table twice.
pub proof fn law_tables_show_a_result_once(
    keys: Seq<KeyView>,
    workload: Workload,
    datasets: Seq<DatasetName>,
    a: int,
    b: int,
)
    requires
        datasets.no_duplicates(),
        0 <= a < b < table_lines(keys, workload, datasets).len(),
    ensures
        table_lines(keys, workload, datasets)[a].1 != table_lines(keys, workload, datasets)[b].1,
    decreases datasets.len(),
{
    let front = datasets.drop_last();
    let before = table_lines(keys, workload, front);
    let lines = table_lines(keys, workload, datasets);
    let dataset = datasets.last();
    if b < before.len() {
        law_tables_show_a_result_once(keys, workload, front, a, b);
    } else if a < before.len() {
        law_tables_show_the_newest(keys, workload, front, a);
        law_tables_show_the_newest(keys, workload, datasets, b);
        lemma_last_match(keys, parquet_key(dataset, workload));
        lemma_lance_lines(keys, dataset, workload);
        let i = choose|i: int| 0 <= i < front.len() && front[i] == before[a].0;
        assert(datasets[i] != datasets[datasets.len() - 1]);
        lemma_dataset_order(keys, workload, dataset, 0, b - before.len());
    } else {
        lemma_dataset_order(keys, workload, dataset, a - before.len(), b - before.len());
    }
}

/// The lines of one dataset: the Parquet result stands first, and the cases differ.
proof fn lemma_dataset_order(
    keys: Seq<KeyView>,
    workload: Workload,
    dataset: DatasetName,
    a: int,
    b: int,
)
    requires
        0 <= a <= b < dataset_lines(keys, dataset, workload).len(),
    ensures
        ({
            let lines = dataset_lines(keys, dataset, workload);
            &&& lines[a].0 == dataset
            &&& lines[b].0 == dataset
            &&& a < b ==> {
                &&& keys[lines[a].1] != keys[lines[b].1]
                &&& lines[a].1 != lines[b].1
                &&& keys[lines[b].1].engine == EngineName::Lance
                &&& keys[lines[a].1].engine == EngineName::Lance ==> !case_less()(
                    case_of(keys[lines[b].1]),
                    case_of(keys[lines[a].1]),
                )
            }
        }),
{
    let cases = lance_cases(keys, dataset, workload);
    let lance = case_lines(keys, dataset, workload, cases);
    let lines = dataset_lines(keys, dataset, workload);
    lemma_last_match(keys, parquet_key(dataset, workload));
    lemma_lance_lines(keys, dataset, workload);
    lemma_case_less();
    law_sort_orders(distinct(all_cases(keys, dataset, workload)), case_less());
    let first: int = if last_match(keys, parquet_key(dataset, workload)) is Some {
        1
    } else {
        0
    };
    if b >= first {
        assert(lines[b] == lance[b - first]);
        assert(case_of(keys[lines[b].1]) == cases[b - first]);
    }
    if a >= first {
        assert(lines[a] == lance[a - first]);
        assert(case_of(keys[lines[a].1]) == cases[a - first]);
    }
}

/// The case of a Lance result.
pub open spec fn case_of(key: KeyView) -> CaseView {
    CaseView {
        version: key.version->0,
        disable_compression: key.disable_compression,
        index_columns: key.index_columns,
    }
}

proof fn lemma_case_less()
    ensures
        compares_ranks(case_less()),
{
    let less = case_less();
    assert forall|a: CaseView, b: CaseView, c: CaseView|
        !#[trigger] less(a, b) && !#[trigger] less(b, c) implies !less(a, c) by {
        let (x, y, z) = (
            opt_text(a.index_columns),
            opt_text(b.index_columns),
            opt_text(c.index_columns),
        );
        lemma_text_less_total(x, y);
        lemma_text_less_total(y, z);
        lemma_text_less_total(x, z);
        if text_less(z, y) && text_less(y, x) {
            lemma_text_less_trans(z, y, x);
        }
    }
    assert forall|a: CaseView, b: CaseView| #[trigger] less(a, b) implies !less(b, a) by {
        lemma_text_less_total(opt_text(a.index_columns), opt_text(b.index_columns));
    }
}

/// Whether a file version is one of those that Lance has names for here.
pub open spec fn is_known_version(version: Option<Seq<char>>) -> bool {
    version == Some("0.3"@) || version == Some("stable"@) || version == Some("2.0"@) || version
        == Some("2.1"@) || version == Some("2.2"@)
}

/// In the lines of a dataset Parquet stands first. Lance follows by file version, unknown versions
/// last; of one version the compressed datasets come first, and of these the ones without an index.
pub proof fn law_lines_are_in_order(
    keys: Seq<KeyView>,
    workload: Workload,
    dataset: DatasetName,
    a: int,
    b: int,
)
    requires
        0 <= a < b < table_lines(keys, workload, seq![dataset]).len(),
    ensures
        ({
            let lines = table_lines(keys, workload, seq![dataset]);
            let (x, y) = (keys[lines[a].1], keys[lines[b].1]);
            &&& y.engine == EngineName::Lance
            &&& x.engine == EngineName::Lance ==> {
                &&& !(x.version == Some("2.2"@) && y.version == Some("2.1"@))
                &&& !(x.version == Some("2.2"@) && y.version == Some("2.0"@))
                &&& !(x.version == Some("2.1"@) && y.version == Some("2.0"@))
                &&& !(x.version == Some("2.1"@) && (y.version == Some("0.3"@) || y.version == Some(
                    "stable"@,
                )))
                &&& is_known_version(y.version) ==> is_known_version(x.version)
                &&& x.version == y.version && x.disable_compression ==> y.disable_compression
                &&& x.version == y.version && x.disable_compression == y.disable_compression
                    && x.index_columns is Some ==> y.index_columns is Some
            }
        }),
{
    reveal_strlit("2.0");
    reveal_strlit("2.1");
    reveal_strlit("2.2");
    reveal_strlit("0.3");
    reveal_strlit("stable");
    assert("2.0"@[2] == '0' && "2.1"@[2] == '1' && "2.2"@[2] == '2');
    assert("0.3"@[0] == '0' && "2.1"@[0] == '2' && "2.2"@[0] == '2');
    assert("stable"@.len() == 6 && "2.1"@.len() == 3 && "2.2"@.len() == 3);
    let one = seq![dataset];
    assert(one.drop_last() =~= Seq::<DatasetName>::empty());
    assert(table_lines(keys, workload, one.drop_last()) =~= Seq::empty());
    assert(table_lines(keys, workload, one) =~= dataset_lines(keys, dataset, workload));
    let lines = dataset_lines(keys, dataset, workload);
    lemma_dataset_order(keys, workload, dataset, a, b);
    law_tables_show_the_newest(keys, workload, one, a);
    law_tables_show_the_newest(keys, workload, one, b);
    let (x, y) = (keys[lines[a].1], keys[lines[b].1]);
    assert(x.engine == EngineName::Lance ==> version_rank(x.version) <= version_rank(y.version));
}

/// A table goes dataset by dataset.
pub proof fn law_tables_go_by_dataset(
    keys: Seq<KeyView>,
    workload: Workload,
    first: Seq<DatasetName>,
    second: Seq<DatasetName>,
)
    ensures
        table_lines(keys, workload, first + second) == table_lines(keys, workload, first)
            + table_lines(keys, workload, second),
    decreases second.len(),
{
    if second.len() == 0 {
        assert(first + second =~= first);
        assert(table_lines(keys, workload, first) =~= table_lines(keys, workload, first)
            + table_lines(keys, workload, second));
    } else {
        law_tables_go_by_dataset(keys, workload, first, second.drop_last());
        assert((first + second).drop_last() =~= first + second.drop_last());
        assert(table_lines(keys, workload, first + second) =~= table_lines(keys, workload, first)
            + table_lines(keys, workload, second));
    }
}

/// The report lists every known dataset once, each under a name of its own.
pub proof fn law_report_lists_every_dataset(a: DatasetName, b: DatasetName)
    ensures
        report_datasets().no_duplicates(),
        report_datasets().contains(a) <==> a != DatasetName::Unknown,
        a != b ==> dataset_name(a) != dataset_name(b),
{
    let all = report_datasets();
    assert(all[0] == DatasetName::FineWeb && all[1] == DatasetName::OpenVid && all[2]
        == DatasetName::Laion10m && all[3] == DatasetName::LeRobotPushT && all[4]
        == DatasetName::LeRobotPushTImage);
    reveal_strlit("FineWeb");
    reveal_strlit("OpenVid");
    reveal_strlit("LAION");
    reveal_strlit("LeRobot PushT");
    reveal_strlit("LeRobot PushT Image");
    reveal_strlit("Unknown");
    assert("FineWeb"@.len() == 7 && "OpenVid"@.len() == 7 && "LAION"@.len() == 5
        && "LeRobot PushT"@.len() == 13 && "LeRobot PushT Image"@.len() == 19 && "Unknown"@.len()
        == 7);
    assert("FineWeb"@[0] == 'F' && "OpenVid"@[0] == 'O' && "Unknown"@[0] == 'U');
}

/// The label of a Lance result begins with its file version. It ends with its index, where it has
/// one, and says whether compression was off. Other engines have fixed labels.
pub proof fn law_labels_name_the_case(key: KeyView, version: Seq<char>, cols: Seq<char>)
    requires
        key.engine == EngineName::Lance,
        key.version == Some(version),
    ensures
        has_prefix(engine_label(key), "lance@"@ + version),
        key.index_columns is None && !key.disable_compression ==> engine_label(key) == "lance@"@
            + version,
        key.index_columns is None && key.disable_compression ==> engine_label(key) == "lance@"@
            + version + "+no-compression"@,
        key.index_columns == Some(cols) && cols.len() > 0 ==> engine_label(key) == engine_label(
            KeyView { index_columns: None, ..key },
        ) + "+idx("@ + cols + ")"@,
        engine_label(KeyView { engine: EngineName::Parquet, ..key }) == "parquet"@,
{
    reveal_strlit("");
    reveal_strlit("lance@");
    reveal_strlit("+no-compression");
    let base = "lance@"@ + version;
    assert(base + ""@ =~= base);
    let label = engine_label(key);
    assert(label.subrange(0, base.len() as int) =~= base);
}

// ---------------------------------------------------------------------------
// The text of tables.
// ---------------------------------------------------------------------------

/// The lines of a table follow one another, each as its result gives it.
pub proof fn law_lines_follow_one_another(
    first: Seq<(DatasetName, int)>,
    line: (DatasetName, int),
    second: Seq<(DatasetName, int)>,
    text: spec_fn(DatasetName, int) -> Seq<char>,
)
    ensures
        lines_text(seq![line], text) == text(line.0, line.1),
        lines_text(first + second, text) == lines_text(first, text) + lines_text(second, text),
    decreases second.len(),
{
    let one = seq![line];
    assert(one.drop_last() =~= Seq::<(DatasetName, int)>::empty());
    assert(lines_text(one.drop_last(), text) =~= Seq::empty());
    assert(lines_text(one, text) =~= text(line.0, line.1));
    if second.len() == 0 {
        assert(first + second =~= first);
        assert(lines_text(first, text) =~= lines_text(first, text) + lines_text(second, text));
    } else {
        law_lines_follow_one_another(first, line, second.drop_last(), text);
        assert((first + second).drop_last() =~= first + second.drop_last());
        assert(lines_text(first + second, text) =~= lines_text(first, text) + lines_text(
            second,
            text,
        ));
    }
}

} // verus!
