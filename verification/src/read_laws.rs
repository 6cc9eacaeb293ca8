//! What holds of how files are read: their groups, their order, failures and totals.
use vstd::prelude::*;
use vstd::utf8::encode_utf8;

use crate::batches::text_bytes;
use crate::blob_reads::{count_present, number_less, sum_lengths};
use crate::chained_rows::{chain_step, ChainAction, ChainEvent, ChainState};
use crate::csv_rows::columns_fit;
use crate::file_order::{by_path, law_paths_are_ordered, names_along, path_less};
use crate::numbers::{
    all_digits, decimal, digits_value, is_digit, law_decimal_round_trip, number_of, number_up_to,
};
use crate::parquet_options::{
    options_fault, profile_name, read_mode_name, writer_error_text, ParquetReadMode,
    ParquetWriterOptions, ParquetWriterProfile, WriterOptionsError,
};
use crate::parquet_reads::{
    cut_u64, group_starts, is_root, projects, total, window_of, Projection,
};
use crate::query::Filter;
use crate::readers::{
    min_nat, name_ends_with, repeat_fresh, repeat_step, RepeatAction, RepeatEvent, RepeatState,
};
use crate::record_laws::lemma_last_dot;
use crate::records::{extension_is, last_dot};
use crate::runs::filter_words;
use crate::sorting::{
    compares_ranks, law_sort_keeps_elements, law_sort_orders, numbers_below, stable_sort,
};
use crate::text::{bytes_less, lemma_bytes_less_total, lemma_bytes_less_trans};

verus! {

// ---------------------------------------------------------------------------
// Row groups and columns.
// ---------------------------------------------------------------------------

/// The first row group starts at row zero, and each other one where the one before it ends.
pub proof fn law_groups_follow_one_another(rows: Seq<u64>, i: int)
    requires
        total(rows) <= u64::MAX,
        0 <= i,
        i + 1 < rows.len(),
    ensures
        group_starts(rows).len() == rows.len(),
        group_starts(rows)[0] == 0,
        group_starts(rows)[i + 1] == group_starts(rows)[i] + rows[i],
{
    lemma_total_grows(rows, i + 1);
    lemma_total_grows(rows, i);
    assert(rows.take(i + 1).drop_last() =~= rows.take(i));
    assert(rows.take(i + 1).last() == rows[i]);
    assert(rows.take(0) =~= Seq::<u64>::empty());
}

proof fn lemma_total_grows(rows: Seq<u64>, i: int)
    requires
        0 <= i <= rows.len(),
    ensures
        total(rows.take(i)) <= total(rows),
    decreases rows.len() - i,
{
    if i < rows.len() {
        lemma_total_grows(rows, i + 1);
        assert(rows.take(i + 1).drop_last() =~= rows.take(i));
    } else {
        assert(rows.take(i) =~= rows);
    }
}

/// A projection has the columns that were asked for, in their order; where none were, all.
pub proof fn law_projections_have_the_columns(
    p: Projection,
    names: Seq<Seq<char>>,
    columns: Seq<Seq<char>>,
    i: int,
)
    requires
        projects(p, names, Some(columns)),
        0 <= i < columns.len(),
    ensures
        p matches Projection::Roots(roots) && roots@.len() == columns.len() && roots@[i]
            < names.len() && names[roots@[i] as int] == columns[i],
        forall|q: Projection| #[trigger] projects(q, names, None) ==> q is All,
{
    let roots = p->Roots_0;
    assert(is_root(names, columns[i], roots@[i] as int));
}

/// A window takes the rows from the offset on, as many as the limit says and as there are.
pub proof fn law_windows_are_of_the_rows<T>(rows: Seq<T>, offset: u64, limit: u64, i: int)
    requires
        0 <= i < window_of(rows, offset, limit).len(),
    ensures
        window_of(rows, offset, limit).len() <= limit,
        offset + i < rows.len(),
        window_of(rows, offset, limit)[i] == rows[offset + i],
        window_of(rows, offset, limit).len() < limit ==> offset + window_of(
            rows,
            offset,
            limit,
        ).len() == rows.len(),
{
}

// ---------------------------------------------------------------------------
// Order of files.
// ---------------------------------------------------------------------------

/// Paths are ordered by the first name that differs; a directory comes before what is in it.
pub proof fn law_paths_go_by_the_first_name(
    common: Seq<Seq<u8>>,
    x: Seq<u8>,
    a: Seq<Seq<u8>>,
    y: Seq<u8>,
    b: Seq<Seq<u8>>,
)
    requires
        x != y,
    ensures
        path_less(common, common + seq![x] + a),
        path_less(common + seq![x] + a, common + seq![y] + b) <==> bytes_less(x, y),
    decreases common.len(),
{
    let (s, t) = (common + seq![x] + a, common + seq![y] + b);
    if common.len() == 0 {
        assert(s[0] == x && t[0] == y);
    } else {
        let rest = common.drop_first();
        law_paths_go_by_the_first_name(rest, x, a, y, b);
        assert(s.drop_first() =~= rest + seq![x] + a);
        assert(t.drop_first() =~= rest + seq![y] + b);
        assert(s[0] == common[0] && t[0] == common[0]);
    }
}

// ---------------------------------------------------------------------------
// Failures.
// ---------------------------------------------------------------------------

/// A batch that cannot be read is handed on as an error; no row is counted for it, and the file
/// stays the one that is read.
pub proof fn law_failed_batches_cost_no_rows(s: ChainState, r: RepeatState)
    ensures
        chain_step(s, ChainEvent::BatchFailed) == (s, ChainAction::Fail),
        repeat_step(r, RepeatEvent::BatchFailed).1 == RepeatAction::Fail,
        repeat_step(r, RepeatEvent::BatchFailed).0.remaining_rows == r.remaining_rows,
        repeat_step(r, RepeatEvent::BatchFailed).0.open == r.open,
        repeat_step(r, RepeatEvent::BatchFailed).0.next_file_idx == r.next_file_idx,
        repeat_step(r, RepeatEvent::OpenFailed).1 == RepeatAction::Fail,
        repeat_step(r, RepeatEvent::OpenFailed).0.remaining_rows == r.remaining_rows,
{
}

/// Without files there is nothing to repeat: that is reported, unless no rows are wanted.
pub proof fn law_no_files_are_reported(limit_rows: u64)
    ensures
        limit_rows > 0 ==> repeat_step(repeat_fresh(0, limit_rows), RepeatEvent::Next).1
            == RepeatAction::NoFiles,
        limit_rows == 0 ==> repeat_step(repeat_fresh(0, limit_rows), RepeatEvent::Next).1
            == RepeatAction::Done,
{
}

/// The files are opened in turn, and after the last the first again.
pub proof fn law_files_are_opened_in_turn(s: RepeatState)
    requires
        s.files > 0,
        s.next_file_idx < s.files,
        !s.open,
        s.remaining_rows > 0,
    ensures
        repeat_step(s, RepeatEvent::Next).1 == (RepeatAction::Open { file: s.next_file_idx }),
        s.next_file_idx + 1 < s.files ==> repeat_step(s, RepeatEvent::Next).0.next_file_idx
            == s.next_file_idx + 1,
        s.next_file_idx + 1 == s.files ==> repeat_step(s, RepeatEvent::Next).0.next_file_idx == 0,
        repeat_step(s, RepeatEvent::Next).0.remaining_rows == s.remaining_rows,
{
}

// ---------------------------------------------------------------------------
// Totals of blobs.
// ---------------------------------------------------------------------------

/// The bytes and the number of blobs add up over the rows that were read; a missing blob adds
/// neither, an empty one counts as a blob.
pub proof fn law_blobs_add_up(lengths: Seq<Option<usize>>, n: usize)
    ensures
        sum_lengths(Seq::empty()) == 0,
        count_present(Seq::empty()) == 0,
        sum_lengths(lengths.push(Some(n))) == sum_lengths(lengths) + n,
        count_present(lengths.push(Some(n))) == count_present(lengths) + 1,
        sum_lengths(lengths.push(None)) == sum_lengths(lengths),
        count_present(lengths.push(None)) == count_present(lengths),
{
    assert(lengths.push(Some(n)).drop_last() =~= lengths);
    assert(lengths.push(None).drop_last() =~= lengths);
}

// ---------------------------------------------------------------------------
// Options of the writer.
// ---------------------------------------------------------------------------

/// The default profile takes any options. The profile for random blob access needs all three limits,
/// none of them zero, and a blob column; the first that is missing is named.
pub proof fn law_blob_profile_needs_its_limits(o: ParquetWriterOptions)
    ensures
        o.profile == ParquetWriterProfile::Default ==> options_fault(o) is None,
        o.profile == ParquetWriterProfile::RandomBlob ==> {
            &&& options_fault(o) is None <==> {
                &&& o.data_page_size_limit matches Some(n) && n > 0
                &&& o.write_batch_size matches Some(n) && n > 0
                &&& o.max_row_group_bytes matches Some(n) && n > 0
                &&& o.blob_columns@.len() > 0
            }
            &&& options_fault(o) == Some(WriterOptionsError::NoPageSize) <==> o.data_page_size_limit
                is None
            &&& options_fault(o) == Some(WriterOptionsError::NoBatchSize) ==> o.write_batch_size
                is None
            &&& options_fault(o) == Some(WriterOptionsError::NoGroupSize) ==> o.max_row_group_bytes
                is None
            &&& options_fault(o) == Some(WriterOptionsError::NoBlobColumn)
                ==> o.blob_columns@.len() == 0
            &&& options_fault(o) == Some(WriterOptionsError::ZeroLimit) ==> o.data_page_size_limit
                == Some(0usize) || o.write_batch_size == Some(0usize) || o.max_row_group_bytes
                == Some(0usize)
        },
{
}

/// Different profiles and different ways to read have different names.
pub proof fn law_options_have_names(
    p: ParquetWriterProfile,
    q: ParquetWriterProfile,
    m: ParquetReadMode,
    n: ParquetReadMode,
)
    ensures
        profile_name(p) == profile_name(q) ==> p == q,
        read_mode_name(m) == read_mode_name(n) ==> m == n,
{
    reveal_strlit("default");
    reveal_strlit("random-blob");
    reveal_strlit("sequential");
    reveal_strlit("row-selection");
    assert("default"@.len() == 7 && "random-blob"@.len() == 11 && "sequential"@.len() == 10
        && "row-selection"@.len() == 13);
}

// ---------------------------------------------------------------------------
// Numbers in texts.
// ---------------------------------------------------------------------------

/// A number is read with a plus sign or leading zeros as without; a text with anything but digits
/// is none, and one above the bound is not taken.
pub proof fn law_numbers_are_read(n: nat, text: Seq<char>, i: int, max: nat)
    ensures
        number_of(seq!['+'] + decimal(n)) == Some(n),
        number_of(seq!['0'] + decimal(n)) == Some(n),
        number_of(Seq::empty()) is None,
        number_of(seq!['+']) is None,
        0 < i < text.len() && !is_digit(text[i]) ==> number_of(text) is None,
        n <= max ==> number_up_to(decimal(n), max) == Some(n),
        n > max ==> number_up_to(decimal(n), max) is None,
{
    law_decimal_round_trip(n);
    lemma_decimal_digits(n);
    let d = decimal(n);
    assert(is_digit(d[0]) && d[0] != '+');
    assert(digits_value(d) == n);
    assert((seq!['+'] + d).drop_first() =~= d);
    let z = seq!['0'] + d;
    lemma_leading_zero(d);
    assert(all_digits(z)) by {
        assert forall|k: int| 0 <= k < z.len() implies is_digit(#[trigger] z[k]) by {
            if k > 0 {
                assert(is_digit(d[k - 1]));
            }
        }
    }
    assert(seq!['+'].drop_first() =~= Seq::<char>::empty());
    if 0 < i < text.len() && !is_digit(text[i]) {
        if text[0] == '+' {
            let rest = text.drop_first();
            assert(rest[i - 1] == text[i]);
            assert(!is_digit(rest[i - 1]));
        }
    }
}

proof fn lemma_decimal_digits(n: nat)
    ensures
        all_digits(decimal(n)),
        decimal(n).len() > 0,
    decreases n,
{
    if n >= 10 {
        lemma_decimal_digits(n / 10);
        assert(decimal(n).drop_last() =~= decimal(n / 10));
        assert forall|k: int| 0 <= k < decimal(n).len() implies is_digit(#[trigger] decimal(n)[k]) by {
            if k < decimal(n).len() - 1 {
                assert(is_digit(decimal(n / 10)[k]));
            }
        }
    }
}

proof fn lemma_leading_zero(d: Seq<char>)
    ensures
        digits_value(seq!['0'] + d) == digits_value(d),
    decreases d.len(),
{
    reveal_with_fuel(digits_value, 2);
    let z = seq!['0'] + d;
    if d.len() > 0 {
        lemma_leading_zero(d.drop_last());
        assert(z.drop_last() =~= seq!['0'] + d.drop_last());
        assert(z.last() == d.last());
        let (x, y) = (digits_value(z.drop_last()), digits_value(d.drop_last()));
        assert(x == y);
    } else {
        assert(z.last() == '0');
        assert(z.drop_last() =~= Seq::<char>::empty());
    }
}

// ---------------------------------------------------------------------------
// Files.
// ---------------------------------------------------------------------------

/// The files of a directory are read in the order of their paths, each once.
pub proof fn law_files_are_in_the_order_of_paths(paths: Seq<Vec<Vec<u8>>>, i: int, j: int)
    requires
        paths.len() <= usize::MAX,
        0 <= i < j < stable_sort(numbers_below(paths.len()), by_path(paths)).len(),
    ensures
        ({
            let order = stable_sort(numbers_below(paths.len()), by_path(paths));
            &&& order.len() == paths.len()
            &&& order[i] != order[j]
            &&& order[i] < paths.len()
            &&& order[j] < paths.len()
            &&& !path_less(
                names_along(paths[order[j] as int]@),
                names_along(paths[order[i] as int]@),
            )
        }),
{
    let all = numbers_below(paths.len());
    let less = by_path(paths);
    let order = stable_sort(all, less);
    law_sort_keeps_elements(all, less);
    assert(compares_ranks(less)) by {
        assert forall|a: usize, b: usize, c: usize|
            !#[trigger] less(a, b) && !#[trigger] less(b, c) implies !less(a, c) by {
            let (x, y, z) = (
                names_along(paths[a as int]@),
                names_along(paths[b as int]@),
                names_along(paths[c as int]@),
            );
            law_paths_are_ordered(x, y);
            law_paths_are_ordered(y, z);
            law_paths_are_ordered(x, z);
            if path_less(z, y) && path_less(y, x) {
                lemma_path_less_trans(z, y, x);
            }
        }
        assert forall|a: usize, b: usize| #[trigger] less(a, b) implies !less(b, a) by {
            law_paths_are_ordered(names_along(paths[a as int]@), names_along(paths[b as int]@));
        }
    }
    law_sort_orders(all, less);
    all.to_multiset_ensures();
    order.to_multiset_ensures();
    assert(all.no_duplicates());
    all.lemma_multiset_has_no_duplicates();
    order.lemma_multiset_has_no_duplicates_conv();
    assert forall|k: int| 0 <= k < order.len() implies #[trigger] order[k] < paths.len() by {
        assert(order.contains(order[k]));
        assert(order.to_multiset().count(order[k]) > 0);
        assert(all.contains(order[k]));
    }
    assert(!less(order[j], order[i]));
}

proof fn lemma_path_less_trans(a: Seq<Seq<u8>>, b: Seq<Seq<u8>>, c: Seq<Seq<u8>>)
    requires
        path_less(a, b),
        path_less(b, c),
    ensures
        path_less(a, c),
    decreases a.len(),
{
    if a.len() > 0 {
        if a[0] == b[0] && b[0] == c[0] {
            lemma_path_less_trans(a.drop_first(), b.drop_first(), c.drop_first());
        } else if a[0] != b[0] && b[0] != c[0] {
            lemma_bytes_less_trans(a[0], b[0], c[0]);
            lemma_bytes_less_total(a[0], c[0]);
        }
    }
}

/// Rows are sorted from the smallest to the largest.
pub proof fn law_rows_are_sorted_upwards(rows: Seq<u64>, i: int, j: int)
    requires
        0 <= i < j < stable_sort(rows, number_less()).len(),
    ensures
        stable_sort(rows, number_less())[i] <= stable_sort(rows, number_less())[j],
        stable_sort(rows, number_less()).to_multiset() == rows.to_multiset(),
{
    let less = number_less();
    law_sort_keeps_elements(rows, less);
    assert(compares_ranks(less)) by {
        assert forall|a: u64, b: u64, c: u64|
            !#[trigger] less(a, b) && !#[trigger] less(b, c) implies !less(a, c) by {}
        assert forall|a: u64, b: u64| #[trigger] less(a, b) implies !less(b, a) by {}
    }
    law_sort_orders(rows, less);
    assert(!less(stable_sort(rows, less)[j], stable_sort(rows, less)[i]));
}

/// The extension of a file is what stands behind the last dot of its name, where something stands
/// before it.
pub proof fn law_extensions_are_behind_the_last_dot(stem: Seq<u8>, ext: Seq<u8>, want: Seq<char>)
    requires
        stem.len() > 0,
        !ext.contains(46u8),
    ensures
        extension_is(stem + seq![46u8] + ext, want) <==> ext == encode_utf8(want),
        !extension_is(ext, want),
        !extension_is(seq![46u8] + ext, want),
{
    lemma_last_dot(stem, ext);
    let name = stem + seq![46u8] + ext;
    assert(name.skip(stem.len() as int + 1) =~= ext);
    lemma_no_dot(ext);
    lemma_last_dot(Seq::empty(), ext);
    assert(Seq::<u8>::empty() + seq![46u8] + ext =~= seq![46u8] + ext);
}

proof fn lemma_no_dot(name: Seq<u8>)
    requires
        !name.contains(46u8),
    ensures
        last_dot(name) == -1,
    decreases name.len(),
{
    if name.len() > 0 {
        assert(name[name.len() - 1] != 46);
        assert(!name.drop_last().contains(46u8)) by {
            if name.drop_last().contains(46u8) {
                let k = choose|k: int|
                    0 <= k < name.drop_last().len() && name.drop_last()[k] == 46u8;
                assert(name[k] == 46u8);
            }
        }
        lemma_no_dot(name.drop_last());
    }
}

/// A name ends with what stands at its end.
pub proof fn law_names_end_with_their_endings(before: Seq<u8>, ending: Seq<char>, other: Seq<char>)
    ensures
        name_ends_with(before + encode_utf8(ending), ending),
        encode_utf8(other).len() == encode_utf8(ending).len() && encode_utf8(other) != encode_utf8(
            ending,
        ) ==> !name_ends_with(before + encode_utf8(other), ending),
{
    let (e, o) = (encode_utf8(ending), encode_utf8(other));
    assert((before + e).skip(before.len() as int) =~= e);
    assert((before + o).skip(before.len() as int) =~= o);
}

/// The bytes of a column of text are those of its values; a missing value has none.
pub proof fn law_text_bytes_add_up(texts: Seq<Option<Seq<char>>>, text: Seq<char>)
    ensures
        text_bytes(Seq::empty()) == 0,
        text_bytes(texts.push(Some(text))) == text_bytes(texts) + encode_utf8(text).len(),
        text_bytes(texts.push(None)) == text_bytes(texts),
{
    assert(texts.push(Some(text)).drop_last() =~= texts);
    assert(texts.push(None).drop_last() =~= texts);
}

/// The filter of a scan is recorded as Lance reads it.
pub proof fn law_filters_are_recorded_as_run(filter: Filter, n: u64)
    requires
        filter.column_name() == "bench_small_u64"@,
        filter.bound() == n,
    ensures
        filter_words(Some(n)) == Some(filter.sql()),
        filter.sql() == "bench_small_u64"@ + " < "@ + decimal(n as nat),
{
}

/// Each fault of the options is told in its own words.
pub proof fn law_faults_are_told_apart(e: WriterOptionsError, f: WriterOptionsError)
    ensures
        writer_error_text(e) == writer_error_text(f) ==> e == f,
{
    reveal_strlit("random-blob profile requires data_page_size_limit");
    reveal_strlit("random-blob profile requires write_batch_size");
    reveal_strlit("random-blob profile requires max_row_group_bytes");
    reveal_strlit("random-blob writer limits must be greater than zero");
    reveal_strlit("random-blob profile requires at least one blob column");
    assert("random-blob profile requires data_page_size_limit"@.len() == 49);
    assert("random-blob profile requires write_batch_size"@.len() == 45);
    assert("random-blob profile requires max_row_group_bytes"@.len() == 48);
    assert("random-blob writer limits must be greater than zero"@.len() == 51);
    assert("random-blob profile requires at least one blob column"@.len() == 53);
}

/// A count that does not fit is cut to the largest; the smaller of two counts is one of them.
pub proof fn law_counts_are_cut(n: nat, a: nat, b: nat)
    ensures
        n <= u64::MAX ==> cut_u64(n) == n,
        n > u64::MAX ==> cut_u64(n) == u64::MAX,
        min_nat(a, b) <= a,
        min_nat(a, b) <= b,
        min_nat(a, b) == a || min_nat(a, b) == b,
{
}

/// Columns of text fit into a batch where none has more bytes than a signed 32 bit number counts.
pub proof fn law_text_columns_fit_up_to_the_limit(columns: Seq<Seq<Option<Seq<char>>>>)
    ensures
        columns_fit(columns) <==> forall|at: int|
            0 <= at < columns.len() ==> text_bytes(#[trigger] columns[at]) <= i32::MAX,
{
}

} // verus!
