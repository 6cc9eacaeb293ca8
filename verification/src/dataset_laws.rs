//! What holds of the rows and columns of datasets.
use arrow_schema::Field;
use vstd::prelude::*;

use crate::args::blob_column_of;
use crate::batches::{
    batch_columns, batch_names, batch_rows, count_true, first_named, kept, Batch, ColumnData,
};
use crate::commits::occurrences;
use crate::csv_rows::{
    column_names_of, columns_of, directory_of, last_slash, names_file, row_of, table_file,
    text_columns,
};
use crate::fields::{
    field_kind, field_metadata, field_name, field_nullable, field_type, names_of, FieldKind,
};
use crate::numbers::{decimal, law_decimal_round_trip};
use crate::rows::{below, derived_values, le_byte, mixed, row_blobs, row_ids, row_mixes};
use crate::schemas::{
    blob_positions, clean_name, clean_names, is_legacy_blob, is_new_blob_field, is_text_field,
    needs_compression_mark, numbered_name, same_but_name, sanitized, uncompressed, with_helpers,
    BENCH_ROW_ID,
};
use crate::text::trimmed;
use crate::web::{web_columns, WebRowView};
use crate::workload::DatasetName;

verus! {

// ---------------------------------------------------------------------------
// Tables of text.
// ---------------------------------------------------------------------------

/// The rows of some records.
pub open spec fn rows_of(records: Seq<Seq<Seq<char>>>, width: nat) -> Seq<Seq<Option<Seq<char>>>> {
    Seq::new(records.len(), |r: int| row_of(records[r], width))
}

/// A table has the fields of its records where they stand: the value of a row in a column, the
/// first column like any other, is the field of that record at that place, unchanged. It is missing
/// only where the field is empty or not there.
pub proof fn law_fields_are_kept(records: Seq<Seq<Seq<char>>>, width: nat, r: int, at: int)
    requires
        0 <= r < records.len(),
        0 <= at < width,
    ensures
        text_columns(columns_of(rows_of(records, width), width)).len() == width,
        text_columns(columns_of(rows_of(records, width), width))[at] matches ColumnData::Text(
            values,
        ) && values.len() == records.len() && match values[r] {
            Some(value) => at < records[r].len() && value == records[r][at] && value.len() > 0,
            None => at >= records[r].len() || records[r][at].len() == 0,
        },
{
}

/// Every column of a table has a name. One whose header has no white space at its ends keeps it,
/// and white space at the ends of a header makes no difference. Columns without a header are told
/// apart by their numbers.
pub proof fn law_columns_are_named(headers: Seq<Seq<char>>, i: int, j: int)
    requires
        0 <= i < headers.len(),
        0 <= j < headers.len(),
    ensures
        column_names_of(headers).len() == headers.len(),
        column_names_of(headers)[i].len() > 0,
        trimmed(headers[i]) == headers[i] && headers[i].len() > 0 ==> column_names_of(headers)[i]
            == headers[i],
        trimmed(headers[i]).len() > 0 ==> column_names_of(headers)[i] == trimmed(headers[i]),
        trimmed(headers[i]).len() == 0 ==> column_names_of(headers)[i] == "col_"@ + decimal(i as nat),
        trimmed(headers[i]).len() == 0 && trimmed(headers[j]).len() == 0 && i != j
            ==> column_names_of(headers)[i] != column_names_of(headers)[j],
{
    reveal_strlit("col_");
    let (a, b) = (column_names_of(headers)[i], column_names_of(headers)[j]);
    if trimmed(headers[i]).len() == 0 && trimmed(headers[j]).len() == 0 && i != j {
        assert(a.skip(4) =~= decimal(i as nat));
        assert(b.skip(4) =~= decimal(j as nat));
        law_decimal_round_trip(i as nat);
        law_decimal_round_trip(j as nat);
    }
}

proof fn lemma_last_slash(path: Seq<char>)
    ensures
        -1 <= last_slash(path) < path.len(),
        last_slash(path) >= 0 ==> path[last_slash(path)] == '/',
        forall|i: int| last_slash(path) < i < path.len() ==> #[trigger] path[i] != '/',
    decreases path.len(),
{
    if path.len() > 0 && path.last() != '/' {
        let front = path.drop_last();
        lemma_last_slash(front);
        assert forall|i: int| last_slash(path) < i < path.len() implies #[trigger] path[i] != '/' by {
            if i < front.len() {
                assert(front[i] == path[i]);
            }
        }
    }
}

/// Whether a path ends with `.parquet`.
pub open spec fn ends_in_parquet(path: Seq<char>) -> bool {
    exists|stem: Seq<char>| path == #[trigger] (stem + ".parquet"@)
}

/// A converted table is always a `.parquet` file: the path itself where it names one, else a file
/// below it. To ask for that file is to ask for the same file.
pub proof fn law_tables_are_parquet_files(out: Seq<char>)
    ensures
        names_file(out) <==> ends_in_parquet(out),
        ends_in_parquet(table_file(out)),
        table_file(table_file(out)) == table_file(out),
        ends_in_parquet(out) ==> table_file(out) == out,
        !ends_in_parquet(out) ==> table_file(out).take(out.len() as int) == out && table_file(
            out,
        ).len() > out.len(),
        out.len() > 0 && out.last() != '/' && !ends_in_parquet(out) ==> table_file(
            out,
        )[out.len() as int] == '/',
{
    reveal_strlit(".parquet");
    reveal_strlit("openvid.parquet");
    reveal_strlit("/");
    let file = table_file(out);
    lemma_ends_in_parquet(out);
    lemma_ends_in_parquet(file);
    if !names_file(out) {
        assert(file.skip(file.len() - 8) =~= ".parquet"@);
        assert(file.take(out.len() as int) =~= out);
    }
}

proof fn lemma_ends_in_parquet(path: Seq<char>)
    ensures
        names_file(path) <==> ends_in_parquet(path),
{
    reveal_strlit(".parquet");
    if names_file(path) {
        let stem = path.take(path.len() - 8);
        assert(path =~= stem + ".parquet"@);
    }
    if ends_in_parquet(path) {
        let stem = choose|stem: Seq<char>| path == #[trigger] (stem + ".parquet"@);
        assert((stem + ".parquet"@).skip(stem.len() as int) =~= ".parquet"@);
    }
}

/// The directory of a file is what stands before its name; the name has no separator.
pub proof fn law_directories_hold_their_files(path: Seq<char>)
    ensures
        ({
            let dir = directory_of(path);
            &&& dir.len() <= path.len()
            &&& path.take(dir.len() as int) == dir
            &&& (forall|i: int| dir.len() < i < path.len() ==> #[trigger] path[i] != '/')
            &&& (dir.len() == 0 ==> forall|i: int| 0 <= i < path.len() ==> #[trigger] path[i] != '/')
            &&& (dir.len() > 0 && dir != seq!['/'] ==> path[dir.len() as int] == '/')
        }),
{
    lemma_last_slash(path);
    let dir = directory_of(path);
    assert(path.take(dir.len() as int) =~= dir);
    if last_slash(path) == 0 {
        assert(dir =~= seq!['/']);
    }
}

// ---------------------------------------------------------------------------
// Images with captions.
// ---------------------------------------------------------------------------

/// A column of images with captions holds what its name says, row by row.
pub proof fn law_web_columns_hold_what_they_name(
    fields: Seq<Field>,
    rows: Seq<WebRowView>,
    j: int,
    i: int,
)
    requires
        fields.len() == 4,
        is_text_field(fields[0], "key"@, false),
        is_text_field(fields[1], "caption"@, true),
        is_new_blob_field(fields[2], "image"@),
        is_text_field(fields[3], "image_ext"@, true),
        0 <= j < 4,
        0 <= i < rows.len(),
    ensures
        web_columns(rows).len() == 4,
        field_name(fields[j]) == "key"@ ==> (web_columns(rows)[j] matches ColumnData::Text(values)
            && values.len() == rows.len() && values[i] == Some(rows[i].key)),
        field_name(fields[j]) == "caption"@ ==> (web_columns(rows)[j] matches ColumnData::Text(
            values,
        ) && values.len() == rows.len() && values[i] == rows[i].caption),
        field_name(fields[j]) == "image"@ ==> (web_columns(rows)[j] matches ColumnData::Bytes(
            values,
        ) && values.len() == rows.len() && values[i] == rows[i].image),
        field_name(fields[j]) == "image_ext"@ ==> (web_columns(rows)[j] matches ColumnData::Text(
            values,
        ) && values.len() == rows.len() && values[i] == rows[i].image_ext),
        is_legacy_blob(fields[j]) <==> blob_column_of(DatasetName::Laion10m) == Some(
            field_name(fields[j]),
        ),
{
    reveal_strlit("key");
    reveal_strlit("caption");
    reveal_strlit("image");
    reveal_strlit("image_ext");
    assert("key"@.len() == 3 && "caption"@.len() == 7 && "image"@.len() == 5 && "image_ext"@.len()
        == 9);
}

// ---------------------------------------------------------------------------
// Numbers of rows.
// ---------------------------------------------------------------------------

/// The number of which a spread number was made.
pub open spec fn unmixed(z: u64) -> u64 {
    let c = z ^ (z >> 31) ^ (z >> 62);
    let t = c.wrapping_mul(0x319642b2d24d8ec3);
    let b = t ^ (t >> 27) ^ (t >> 54);
    let s = b.wrapping_mul(0x96de1b173f119089);
    let a = s ^ (s >> 30) ^ (s >> 60);
    a.wrapping_sub(0x9e3779b97f4a7c15)
}

proof fn lemma_mul_undone(x: u64, k: u64, inv: u64, q: int)
    requires
        k * inv == q * 0x1_0000_0000_0000_0000 + 1,
    ensures
        x.wrapping_mul(k).wrapping_mul(inv) == x,
{
    let m = 0x1_0000_0000_0000_0000int;
    assert(x.wrapping_mul(k) as int == (x * k) % m);
    assert(x.wrapping_mul(k).wrapping_mul(inv) as int == (((x * k) % m) * inv) % m);
    vstd::arithmetic::div_mod::lemma_mul_mod_noop_left(x * k, inv as int, m);
    assert((x * k) * inv == x * (k * inv)) by (nonlinear_arith);
    assert(x * (q * m + 1) == (x * q) * m + x) by (nonlinear_arith);
    vstd::arithmetic::div_mod::lemma_mod_multiples_vanish((x * q) as int, x as int, m);
    vstd::arithmetic::mul::lemma_mul_is_commutative(m, (x * q) as int);
    vstd::arithmetic::div_mod::lemma_small_mod(x as nat, m as nat);
}

/// The row is told from its spread number: the steps of spreading are undone one by one.
pub proof fn law_spreading_is_undone(x: u64)
    ensures
        unmixed(mixed(x)) == x,
{
    let a = x.wrapping_add(0x9e3779b97f4a7c15);
    let s = a ^ (a >> 30);
    let b = s.wrapping_mul(0xbf58476d1ce4e5b9);
    let t = b ^ (b >> 27);
    let c = t.wrapping_mul(0x94d049bb133111eb);
    let z = c ^ (c >> 31);
    assert(z ^ (z >> 31) ^ (z >> 62) == c) by (bit_vector)
        requires
            z == c ^ (c >> 31),
    ;
    lemma_mul_undone(t, 0x94d049bb133111eb, 0x319642b2d24d8ec3, 0x1cd336eda85f1453);
    assert(t ^ (t >> 27) ^ (t >> 54) == b) by (bit_vector)
        requires
            t == b ^ (b >> 27),
    ;
    lemma_mul_undone(s, 0xbf58476d1ce4e5b9, 0x96de1b173f119089, 0x70c3bca78f27f46c);
    assert(s ^ (s >> 30) ^ (s >> 60) == a) by (bit_vector)
        requires
            s == a ^ (a >> 30),
    ;
}

/// Row `i` of a batch has the number of the first row and `i` more; from its spread number that
/// number is told.
pub proof fn law_rows_are_numbered_on(first: u64, n: nat, i: int)
    requires
        first + n <= u64::MAX,
        0 <= i < n,
    ensures
        row_ids(first, n).len() == n,
        row_mixes(first, n).len() == n,
        row_ids(first, n)[i] == first + i,
        unmixed(row_mixes(first, n)[i]) == first + i,
{
    law_spreading_is_undone((first + i) as u64);
}

// ---------------------------------------------------------------------------
// Synthetic blobs.
// ---------------------------------------------------------------------------

/// The eight bytes of a number make the number: each counts 256 times the one before.
pub proof fn law_bytes_make_the_number(value: u64)
    ensures
        value == le_byte(value, 0) + 0x100 * le_byte(value, 1) + 0x1_0000 * le_byte(value, 2)
            + 0x100_0000 * le_byte(value, 3) + 0x1_0000_0000 * le_byte(value, 4)
            + 0x100_0000_0000 * le_byte(value, 5) + 0x1_0000_0000_0000 * le_byte(value, 6)
            + 0x100_0000_0000_0000 * le_byte(value, 7),
{
    let b0 = (value >> 0u64) & 0xff;
    let b1 = (value >> 8u64) & 0xff;
    let b2 = (value >> 16u64) & 0xff;
    let b3 = (value >> 24u64) & 0xff;
    let b4 = (value >> 32u64) & 0xff;
    let b5 = (value >> 40u64) & 0xff;
    let b6 = (value >> 48u64) & 0xff;
    let b7 = (value >> 56u64) & 0xff;
    assert(b0 <= 0xff && b1 <= 0xff && b2 <= 0xff && b3 <= 0xff && b4 <= 0xff && b5 <= 0xff && b6
        <= 0xff && b7 <= 0xff && value == b0 + 0x100 * b1 + 0x1_0000 * b2 + 0x100_0000 * b3
        + 0x1_0000_0000 * b4 + 0x100_0000_0000 * b5 + 0x1_0000_0000_0000 * b6
        + 0x100_0000_0000_0000 * b7) by (bit_vector)
        requires
            b0 == (value >> 0u64) & 0xff,
            b1 == (value >> 8u64) & 0xff,
            b2 == (value >> 16u64) & 0xff,
            b3 == (value >> 24u64) & 0xff,
            b4 == (value >> 32u64) & 0xff,
            b5 == (value >> 40u64) & 0xff,
            b6 == (value >> 48u64) & 0xff,
            b7 == (value >> 56u64) & 0xff,
    ;
}

/// The synthetic blob of a row has the length asked for. It begins with the bytes of the number of
/// its own row and repeats them every eight bytes.
pub proof fn law_blobs_repeat_the_row_number(
    ids: Seq<Option<u64>>,
    bytes_per_row: nat,
    r: int,
    id: u64,
)
    requires
        0 <= r < ids.len(),
        ids[r] == Some(id),
    ensures
        row_blobs(ids, bytes_per_row).len() == ids.len(),
        row_blobs(ids, bytes_per_row)[r].len() == bytes_per_row,
        forall|j: int|
            0 <= j < 8 && j < bytes_per_row ==> #[trigger] row_blobs(ids, bytes_per_row)[r][j]
                == le_byte(id, j),
        forall|j: int|
            8 <= j < bytes_per_row ==> #[trigger] row_blobs(ids, bytes_per_row)[r][j] == row_blobs(
                ids,
                bytes_per_row,
            )[r][j - 8],
{
    let blob = row_blobs(ids, bytes_per_row)[r];
    assert forall|j: int| 8 <= j < bytes_per_row implies #[trigger] blob[j] == blob[j - 8] by {
        assert(j % 8 == (j - 8) % 8);
    }
    assert forall|j: int| 0 <= j < 8 && j < bytes_per_row implies #[trigger] blob[j] == le_byte(
        id,
        j,
    ) by {
        assert(j % 8 == j);
    }
}

// ---------------------------------------------------------------------------
// Columns by name, derived columns and filters.
// ---------------------------------------------------------------------------

/// A column is looked up under its own name: it is the first one of that name.
pub proof fn law_columns_are_found_by_name(names: Seq<Seq<char>>, name: Seq<char>)
    requires
        names.contains(name),
    ensures
        0 <= first_named(names, name) < names.len(),
        names[first_named(names, name)] == name,
        forall|k: int| 0 <= k < first_named(names, name) ==> #[trigger] names[k] != name,
    decreases names.len(),
{
    let at = choose|at: int| 0 <= at < names.len() && names[at] == name;
    if names[0] != name {
        let rest = names.drop_first();
        assert(rest[at - 1] == name);
        law_columns_are_found_by_name(rest, name);
        assert forall|k: int| 0 <= k < first_named(names, name) implies #[trigger] names[k] != name by {
            if k > 0 {
                assert(rest[k - 1] == names[k]);
            }
        }
    }
}

/// The derived value of a row is the number of the row plus one, zero after the largest; a row
/// without a number has one.
pub proof fn law_derived_values_follow_the_numbers(batch: Batch, i: int)
    requires
        0 <= i < derived_values(batch).len(),
    ensures
        ({
            let at = first_named(batch_names(batch), BENCH_ROW_ID@);
            let numbered = batch_names(batch).contains(BENCH_ROW_ID@) && batch_columns(batch)[at] is U64;
            let ids = batch_columns(batch)[at]->U64_0;
            &&& derived_values(batch).len() == if numbered {
                ids.len()
            } else {
                batch_rows(batch)
            }
            &&& numbered && ids[i] is Some && ids[i] != Some(u64::MAX) ==> derived_values(batch)[i]
                == ids[i]->0 + 1
            &&& numbered && ids[i] == Some(u64::MAX) ==> derived_values(batch)[i] == 0
            &&& numbered && ids[i] is None ==> derived_values(batch)[i] == 1
            &&& !numbered ==> derived_values(batch)[i] == 1
        }),
{
}

/// The positions at which a mask is true, in order.
pub open spec fn true_positions(mask: Seq<bool>) -> Seq<int>
    decreases mask.len(),
{
    if mask.len() == 0 {
        Seq::empty()
    } else if mask.last() {
        true_positions(mask.drop_last()).push(mask.len() - 1)
    } else {
        true_positions(mask.drop_last())
    }
}

/// The rows that a mask keeps are those where it is true, each once and in order, and the same in
/// every column.
pub proof fn law_kept_rows_stay_together<T>(column: Seq<T>, mask: Seq<bool>)
    requires
        column.len() == mask.len(),
    ensures
        kept(column, mask).len() == true_positions(mask).len(),
        count_true(mask) == true_positions(mask).len(),
        forall|k: int|
            0 <= k < true_positions(mask).len() ==> 0 <= #[trigger] true_positions(mask)[k]
                < mask.len() && mask[true_positions(mask)[k]] && kept(column, mask)[k]
                == column[true_positions(mask)[k]],
        forall|a: int, b: int|
            0 <= a < b < true_positions(mask).len() ==> #[trigger] true_positions(mask)[a]
                < #[trigger] true_positions(mask)[b],
        forall|p: int|
            0 <= p < mask.len() && #[trigger] mask[p] ==> true_positions(mask).contains(p),
    decreases mask.len(),
{
    if mask.len() > 0 {
        let (front, front_mask) = (column.drop_last(), mask.drop_last());
        law_kept_rows_stay_together(front, front_mask);
        let positions = true_positions(mask);
        let before = true_positions(front_mask);
        assert forall|k: int| 0 <= k < positions.len() implies 0 <= #[trigger] positions[k]
            < mask.len() && mask[positions[k]] && kept(column, mask)[k] == column[positions[k]] by {
            if k < before.len() {
                assert(positions[k] == before[k]);
                assert(front_mask[before[k]] == mask[before[k]]);
                assert(front[before[k]] == column[before[k]]);
                assert(kept(column, mask)[k] == kept(front, front_mask)[k]);
            }
        }
        assert forall|a: int, b: int| 0 <= a < b < positions.len() implies #[trigger] positions[a]
            < #[trigger] positions[b] by {
            assert(positions[a] == before[a]);
            if b < before.len() {
                assert(positions[b] == before[b]);
            }
        }
        assert forall|p: int| 0 <= p < mask.len() && #[trigger] mask[p] implies positions.contains(
            p,
        ) by {
            if p < front_mask.len() {
                assert(front_mask[p] == mask[p]);
                let k = choose|k: int| 0 <= k < before.len() && before[k] == p;
                assert(positions[k] == p);
            } else {
                assert(positions[positions.len() - 1] == p);
            }
        }
    }
}

/// A filter takes exactly the rows whose value is there and less than the bound.
pub proof fn law_filters_take_what_is_below(values: Seq<Option<u64>>, bound: u64, i: int)
    requires
        0 <= i < values.len(),
    ensures
        below(values, bound).len() == values.len(),
        below(values, bound)[i] <==> (values[i] matches Some(v) && v < bound),
{
}

// ---------------------------------------------------------------------------
// Names of columns.
// ---------------------------------------------------------------------------

/// A name of letters, digits and underscores stays as it is. Any other keeps its length and its
/// letters and digits where they are; nothing is left to clean then.
pub proof fn law_clean_names_stay(name: Seq<char>, i: int)
    ensures
        clean_name(clean_name(name)) == clean_name(name),
        name.len() > 0 ==> clean_name(name).len() == name.len(),
        0 <= i < name.len() ==> clean_name(name)[i] == name[i] || (clean_name(name)[i] == '_' && !(
        'a' <= name[i] && name[i] <= 'z') && !('A' <= name[i] && name[i] <= 'Z') && !('0' <= name[i]
            && name[i] <= '9')),
{
    reveal_strlit("col");
    assert(clean_name(clean_name(name)) =~= clean_name(name));
}

proof fn lemma_occurrences_grow(s: Seq<Seq<char>>, x: Seq<char>, i: int, j: int)
    requires
        0 <= i < j <= s.len(),
        s[i] == x,
    ensures
        occurrences(s.take(i), x) < occurrences(s.take(j), x),
    decreases j - i,
{
    assert(s.take(j).drop_last() =~= s.take(j - 1));
    if j == i + 1 {
        assert(s.take(j).last() == x);
    } else {
        lemma_occurrences_grow(s, x, i, j - 1);
    }
}

/// The first column of a name keeps the clean name. Columns whose names become the same are told
/// apart by numbers.
pub proof fn law_columns_are_told_apart(names: Seq<Seq<char>>, i: int, j: int)
    requires
        0 <= i < j < names.len(),
        clean_name(names[i]) == clean_name(names[j]),
    ensures
        numbered_name(names, i) != numbered_name(names, j),
        (forall|k: int| 0 <= k < i ==> clean_name(#[trigger] names[k]) != clean_name(names[i]))
            ==> numbered_name(names, i) == clean_name(names[i]),
{
    reveal_strlit("_");
    let all = clean_names(names);
    let base = all[i];
    assert(all[j] == base);
    lemma_occurrences_grow(all, base, i, j);
    let (n, m) = (occurrences(all.take(i), base), occurrences(all.take(j), base));
    let (a, b) = (numbered_name(names, i), numbered_name(names, j));
    assert(b.skip(base.len() as int + 1) =~= decimal(m));
    law_decimal_round_trip(m);
    if n == 0 {
        assert(a.len() < b.len());
    } else {
        assert(a.skip(base.len() as int + 1) =~= decimal(n));
        law_decimal_round_trip(n);
    }
    if forall|k: int| 0 <= k < i ==> clean_name(#[trigger] names[k]) != clean_name(names[i]) {
        assert forall|k: int| 0 <= k < i implies #[trigger] all[k] != base by {
            assert(all[k] == clean_name(names[k]));
        }
        lemma_no_occurrence(all, base, i);
    }
}

proof fn lemma_no_occurrence(s: Seq<Seq<char>>, x: Seq<char>, i: int)
    requires
        0 <= i <= s.len(),
        forall|k: int| 0 <= k < i ==> #[trigger] s[k] != x,
    ensures
        occurrences(s.take(i), x) == 0,
    decreases i,
{
    if i > 0 {
        lemma_no_occurrence(s, x, i - 1);
        assert(s.take(i).drop_last() =~= s.take(i - 1));
        assert(s.take(i).last() == s[i - 1]);
    }
}

/// The positions of the blob columns are those of the columns marked as blobs, each once and in
/// order; a column that is made for blobs is among them.
pub proof fn law_blob_columns_are_found(fields: Seq<Field>, at: int)
    requires
        0 <= at < fields.len(),
    ensures
        blob_positions(fields).contains(at) <==> is_legacy_blob(fields[at]),
        forall|name: Seq<char>| #[trigger] is_new_blob_field(fields[at], name) ==> blob_positions(
            fields,
        ).contains(at),
        forall|a: int, b: int|
            0 <= a < b < blob_positions(fields).len() ==> #[trigger] blob_positions(fields)[a]
                < #[trigger] blob_positions(fields)[b],
{
    lemma_blob_positions(fields);
    assert(blob_positions(fields).contains(at) <==> is_legacy_blob(fields[at]));
}

proof fn lemma_blob_positions(fields: Seq<Field>)
    ensures
        forall|a: int|
            0 <= a < blob_positions(fields).len() ==> 0 <= #[trigger] blob_positions(fields)[a]
                < fields.len(),
        forall|a: int, b: int|
            0 <= a < b < blob_positions(fields).len() ==> #[trigger] blob_positions(fields)[a]
                < #[trigger] blob_positions(fields)[b],
        forall|at: int|
            0 <= at < fields.len() ==> (#[trigger] blob_positions(fields).contains(at)
                <==> is_legacy_blob(fields[at])),
    decreases fields.len(),
{
    if fields.len() > 0 {
        let front = fields.drop_last();
        lemma_blob_positions(front);
        let (all, before) = (blob_positions(fields), blob_positions(front));
        assert forall|at: int| 0 <= at < fields.len() implies (#[trigger] all.contains(at)
            <==> is_legacy_blob(fields[at])) by {
            if at < front.len() {
                assert(front[at] == fields[at]);
                assert(before.contains(at) <==> is_legacy_blob(front[at]));
                if before.contains(at) {
                    let k = choose|k: int| 0 <= k < before.len() && before[k] == at;
                    assert(all[k] == at);
                }
                if all.contains(at) {
                    let k = choose|k: int| 0 <= k < all.len() && all[k] == at;
                    assert(before[k] == at);
                }
            } else {
                if is_legacy_blob(fields[at]) {
                    assert(all[all.len() - 1] == at);
                }
                if all.contains(at) {
                    let k = choose|k: int| 0 <= k < all.len() && all[k] == at;
                    if k < before.len() {
                        assert(before[k] == at);
                    }
                }
            }
        }
    }
}

/// The synthetic blob of a row without a number is that of row zero.
pub proof fn law_blobs_without_a_number_are_of_row_zero(
    ids: Seq<Option<u64>>,
    bytes_per_row: nat,
    r: int,
    s: int,
)
    requires
        0 <= r < ids.len(),
        0 <= s < ids.len(),
        ids[r] is None,
        ids[s] == Some(0u64),
    ensures
        row_blobs(ids, bytes_per_row)[r] == row_blobs(ids, bytes_per_row)[s],
{
}

/// A clean name is made of ASCII letters, digits and underscores alone.
pub proof fn law_clean_names_are_plain(name: Seq<char>, i: int)
    requires
        0 <= i < clean_name(name).len(),
    ensures
        ({
            let c = clean_name(name)[i];
            ('a' <= c && c <= 'z') || ('A' <= c && c <= 'Z') || ('0' <= c && c <= '9') || c == '_'
        }),
{
    reveal_strlit("col");
}

// ---------------------------------------------------------------------------
// Schemas.
// ---------------------------------------------------------------------------

/// Cleaning the names of columns changes nothing but the names.
pub proof fn law_cleaning_changes_names_only(out: Seq<Field>, fields: Seq<Field>, i: int)
    requires
        sanitized(out, fields),
        0 <= i < fields.len(),
    ensures
        out.len() == fields.len(),
        field_name(out[i]) == numbered_name(names_of(fields), i),
        field_type(out[i]) == field_type(fields[i]),
        field_nullable(out[i]) == field_nullable(fields[i]),
        field_metadata(out[i]) == field_metadata(fields[i]),
{
    assert(same_but_name(out[i], fields[i], numbered_name(names_of(fields), i)));
}

/// The helper columns stand behind all others: first the number of the row, then its spread number,
/// both unsigned 64 bit numbers without nulls.
pub proof fn law_helpers_stand_behind(out: Seq<Field>, fields: Seq<Field>, i: int)
    requires
        with_helpers(out, fields),
        0 <= i < fields.len(),
    ensures
        out.len() == fields.len() + 2,
        out[i] == fields[i],
        names_of(out) == names_of(fields).push("bench_row_id"@).push("bench_small_u64"@),
        field_kind(out[fields.len() as int]) == FieldKind::U64,
        field_kind(out[fields.len() as int + 1]) == FieldKind::U64,
        !field_nullable(out[fields.len() as int]),
        !field_nullable(out[fields.len() as int + 1]),
{
    assert(out.take(fields.len() as int)[i] == out[i]);
    assert forall|k: int| 0 <= k < fields.len() implies #[trigger] names_of(out)[k] == names_of(
        fields,
    )[k] by {
        assert(out.take(fields.len() as int)[k] == out[k]);
    }
    assert(names_of(out) =~= names_of(fields).push("bench_row_id"@).push("bench_small_u64"@));
}

/// A column that is made for blobs holds large binary values that may be missing, under the name
/// asked for, and is marked as Lance marks blobs.
pub proof fn law_blob_columns_are_marked(field: Field, name: Seq<char>)
    requires
        is_new_blob_field(field, name),
    ensures
        field_name(field) == name,
        field_kind(field) == FieldKind::LargeBinary,
        field_nullable(field),
        field_metadata(field).contains_pair("lance-encoding:blob"@, "true"@),
        is_legacy_blob(field),
{
}

/// Switching compression off marks binary columns and leaves all others as they are.
pub proof fn law_only_binary_columns_are_marked(out: Field, field: Field)
    requires
        uncompressed(out, field),
    ensures
        ({
            let kind = field_kind(field);
            let binary = kind == FieldKind::Binary || kind == FieldKind::LargeBinary || kind
                == FieldKind::BinaryView;
            &&& field_name(out) == field_name(field)
            &&& field_type(out) == field_type(field)
            &&& field_nullable(out) == field_nullable(field)
            &&& binary ==> field_metadata(out).contains_pair("lance-encoding:compression"@, "none"@)
            &&& !binary ==> field_metadata(out) == field_metadata(field) && !needs_compression_mark(
                field,
            )
            &&& binary && !field_metadata(field).contains_pair(
                "lance-encoding:compression"@,
                "none"@,
            ) ==> needs_compression_mark(field)
            &&& forall|key: Seq<char>|
                key != "lance-encoding:compression"@ ==> (#[trigger] field_metadata(
                    out,
                ).contains_key(key) <==> field_metadata(field).contains_key(key))
        }),
{
}

/// The datasets with images and with videos have a blob column, the others none.
pub proof fn law_blob_columns_of_datasets(dataset: DatasetName)
    ensures
        blob_column_of(dataset) is Some <==> dataset == DatasetName::Laion10m || dataset
            == DatasetName::OpenVid,
        dataset == DatasetName::Laion10m ==> blob_column_of(dataset) == Some("image"@),
        dataset == DatasetName::OpenVid ==> blob_column_of(dataset) == Some("video_blob"@),
{
}

} // verus!
