//! The values of the helper columns.
use std::sync::Arc;

use arrow_schema::{ArrowError, Field, Schema};
use vstd::prelude::*;

use crate::batches::{
    batch_columns, batch_fields, batch_names, batch_rows, batch_types, extends, filter_batch,
    find_column, first_named, fits, is_kept, is_plain, is_typed, matches_kinds, new_batch, new_data,
    num_rows, opt_bytes, opt_bytes_views, same_kinds, some_all, stand_for, takes, Batch, ColumnData,
    FoundColumn, NewColumn,
};
use crate::fields::{field_kind, schema_fields, shared_fields, type_kind, FieldKind};
use crate::schemas::{
    is_new_blob_field, is_u64_field, sanitized, uncompressed, with_helpers, BENCH_ROW_ID,
};

verus! {

/// Spreads a number over all 64 bit numbers.
pub open spec fn mixed(x: u64) -> u64 {
    let a = x.wrapping_add(0x9e3779b97f4a7c15);
    let b = (a ^ (a >> 30)).wrapping_mul(0xbf58476d1ce4e5b9);
    let c = (b ^ (b >> 27)).wrapping_mul(0x94d049bb133111eb);
    c ^ (c >> 31)
}

/// Spreads a number over all 64 bit numbers.
pub fn splitmix64(x: u64) -> (z: u64)
    ensures
        z == mixed(x),
{
    let a: u64 = x.wrapping_add(0x9e3779b97f4a7c15);
    let b: u64 = (a ^ (a >> 30)).wrapping_mul(0xbf58476d1ce4e5b9);
    let c: u64 = (b ^ (b >> 27)).wrapping_mul(0x94d049bb133111eb);
    c ^ (c >> 31)
}

/// Multiplying by a number that has an inverse modulo 2^64 loses nothing.
proof fn lemma_mul_injective(x: u64, y: u64, k: u64, inv: u64, q: int)
    requires
        x.wrapping_mul(k) == y.wrapping_mul(k),
        k * inv == q * 0x1_0000_0000_0000_0000 + 1,
    ensures
        x == y,
{
    let m = 0x1_0000_0000_0000_0000int;
    lemma_undo(x, k, inv, q);
    lemma_undo(y, k, inv, q);
    assert((x.wrapping_mul(k) as int * inv) % m == (y.wrapping_mul(k) as int * inv) % m);
}

proof fn lemma_undo(x: u64, k: u64, inv: u64, q: int)
    requires
        k * inv == q * 0x1_0000_0000_0000_0000 + 1,
    ensures
        (x.wrapping_mul(k) as int * inv) % 0x1_0000_0000_0000_0000 == x,
{
    let m = 0x1_0000_0000_0000_0000int;
    assert(x.wrapping_mul(k) as int == (x * k) % m);
    vstd::arithmetic::div_mod::lemma_mul_mod_noop_left(x * k, inv as int, m);
    assert((x * k) * inv == x * (k * inv)) by (nonlinear_arith);
    assert(x * (q * m + 1) == (x * q) * m + x) by (nonlinear_arith);
    vstd::arithmetic::div_mod::lemma_mod_multiples_vanish((x * q) as int, x as int, m);
    vstd::arithmetic::mul::lemma_mul_is_commutative(m, (x * q) as int);
    vstd::arithmetic::div_mod::lemma_small_mod(x as nat, m as nat);
}

/// Different rows get different numbers.
pub proof fn law_mixed_injective(x: u64, y: u64)
    requires
        mixed(x) == mixed(y),
    ensures
        x == y,
{
    let (a, a2) = (x.wrapping_add(0x9e3779b97f4a7c15), y.wrapping_add(0x9e3779b97f4a7c15));
    let (s, s2) = (a ^ (a >> 30), a2 ^ (a2 >> 30));
    let (b, b2) = (s.wrapping_mul(0xbf58476d1ce4e5b9), s2.wrapping_mul(0xbf58476d1ce4e5b9));
    let (t, t2) = (b ^ (b >> 27), b2 ^ (b2 >> 27));
    let (c, c2) = (t.wrapping_mul(0x94d049bb133111eb), t2.wrapping_mul(0x94d049bb133111eb));
    assert(c == c2) by (bit_vector)
        requires
            c ^ (c >> 31) == c2 ^ (c2 >> 31),
    ;
    lemma_mul_injective(t, t2, 0x94d049bb133111eb, 0x319642b2d24d8ec3, 0x1cd336eda85f1453);
    assert(b == b2) by (bit_vector)
        requires
            b ^ (b >> 27) == b2 ^ (b2 >> 27),
    ;
    lemma_mul_injective(s, s2, 0xbf58476d1ce4e5b9, 0x96de1b173f119089, 0x70c3bca78f27f46c);
    assert(a == a2) by (bit_vector)
        requires
            a ^ (a >> 30) == a2 ^ (a2 >> 30),
    ;
}

/// The numbers of `n` rows from `first` on.
pub open spec fn row_ids(first: u64, n: nat) -> Seq<u64> {
    Seq::new(n, |i: int| (first + i) as u64)
}

/// The spread numbers of `n` rows from `first` on.
pub open spec fn row_mixes(first: u64, n: nat) -> Seq<u64> {
    Seq::new(n, |i: int| mixed((first + i) as u64))
}

fn make_row_ids(first: u64, n: usize) -> (out: Vec<u64>)
    requires
        first + n <= u64::MAX,
    ensures
        out@ == row_ids(first, n as nat),
{
    let mut out: Vec<u64> = Vec::new();
    let mut i: usize = 0;
    while i < n
        invariant
            i <= n,
            first + n <= u64::MAX,
            out@ == row_ids(first, n as nat).take(i as int),
        decreases n - i,
    {
        out.push(first + i as u64);
        i += 1;
        assert(out@ =~= row_ids(first, n as nat).take(i as int));
    }
    assert(out@ =~= row_ids(first, n as nat));
    out
}

fn make_row_mixes(first: u64, n: usize) -> (out: Vec<u64>)
    requires
        first + n <= u64::MAX,
    ensures
        out@ == row_mixes(first, n as nat),
{
    let mut out: Vec<u64> = Vec::new();
    let mut i: usize = 0;
    while i < n
        invariant
            i <= n,
            first + n <= u64::MAX,
            out@ == row_mixes(first, n as nat).take(i as int),
        decreases n - i,
    {
        out.push(splitmix64(first + i as u64));
        i += 1;
        assert(out@ =~= row_mixes(first, n as nat).take(i as int));
    }
    assert(out@ =~= row_mixes(first, n as nat));
    out
}

/// Why a batch cannot be given.
#[derive(Debug)]
pub enum BatchError {
    /// A column that has to be there is not.
    MissingColumn,
    /// A column that has to hold unsigned 64 bit numbers holds something else.
    NotU64,
    /// The batch could not be put together.
    Arrow(ArrowError),
}

/// Numbers the rows of the batches of a dataset.
#[derive(Debug)]
pub struct RowNumbers {
    /// The number of the next row.
    pub next_row_id: u64,
}

impl RowNumbers {
    /// Starts at an offset.
    pub fn new(row_id_offset: u64) -> (numbers: RowNumbers)
        ensures
            numbers.next_row_id == row_id_offset,
    {
        RowNumbers { next_row_id: row_id_offset }
    }

    /// The batch with the helper columns: the number of each row, and that number spread. Rows are
    /// numbered on from batch to batch, whether or not the batch could be put together.
    pub fn number(&mut self, batch: &Batch, schema: &Arc<Schema>) -> (out: Result<Batch, BatchError>)
        requires
            old(self).next_row_id + batch_rows(*batch) <= u64::MAX,
        ensures
            final(self).next_row_id == old(self).next_row_id + batch_rows(*batch),
            match out {
                Ok(o) => {
                    let first = old(self).next_row_id;
                    let n = batch_rows(*batch);
                    &&& same_kinds(
                        schema_fields(**schema),
                        batch_types(*batch),
                        seq![FieldKind::U64, FieldKind::U64],
                    )
                    &&& batch_rows(o) == n
                    &&& batch_fields(o) == schema_fields(**schema) && is_typed(o)
                    &&& batch_columns(o) == batch_columns(*batch) + seq![
                        ColumnData::U64(some_all(row_ids(first, n))),
                        ColumnData::U64(some_all(row_mixes(first, n))),
                    ]
                },
                Err(e) => e is Arrow && !extends(
                    schema_fields(**schema),
                    *batch,
                    seq![FieldKind::U64, FieldKind::U64],
                ),
            },
    {
        let n: usize = num_rows(batch);
        let first: u64 = self.next_row_id;
        let ids = make_row_ids(first, n);
        let mixes = make_row_mixes(first, n);
        self.next_row_id = first + n as u64;
        let columns = vec![NewColumn::U64(ids), NewColumn::U64(mixes)];
        proof {
            assert(new_data(columns@) =~= seq![
                ColumnData::U64(some_all(row_ids(first, n as nat))),
                ColumnData::U64(some_all(row_mixes(first, n as nat))),
            ]);
            lemma_extends_fits(shared_fields(schema), batch, columns@);
            assert(kinds_of(columns@) =~= seq![FieldKind::U64, FieldKind::U64]);
        }
        match new_batch(Some(batch), schema, columns) {
            Ok(o) => Ok(o),
            Err(e) => Err(BatchError::Arrow(e)),
        }
    }
}

/// Numbering goes on where it stopped: two batches get the numbers that one batch of all their
/// rows would get.
pub proof fn law_numbers_continue(first: u64, n: nat, m: nat)
    requires
        first + n + m <= u64::MAX,
    ensures
        row_ids(first, n) + row_ids((first + n) as u64, m) == row_ids(first, n + m),
        row_mixes(first, n) + row_mixes((first + n) as u64, m) == row_mixes(first, n + m),
{
    assert(row_ids(first, n) + row_ids((first + n) as u64, m) =~= row_ids(first, n + m));
    assert(row_mixes(first, n) + row_mixes((first + n) as u64, m) =~= row_mixes(first, n + m));
}

/// The kinds of new columns.
spec fn kinds_of(columns: Seq<NewColumn>) -> Seq<FieldKind> {
    Seq::new(columns.len(), |i: int| columns[i].kind())
}

proof fn lemma_extends_fits(fields: Seq<Field>, batch: &Batch, columns: Seq<NewColumn>)
    requires
        forall|i: int| 0 <= i < columns.len() ==> (#[trigger] columns[i]).is_full(),
    ensures
        extends(fields, *batch, kinds_of(columns)) <==> fits(fields, Some(batch), columns),
        same_kinds(fields, batch_types(*batch), kinds_of(columns)) <==> matches_kinds(
            fields,
            batch_types(*batch),
            columns,
        ),
{
    let types = batch_types(*batch);
    if same_kinds(fields, types, kinds_of(columns)) {
        assert forall|i: int| 0 <= i < columns.len() implies takes(
            fields[types.len() + i],
            #[trigger] columns[i],
        ) by {
            assert(kinds_of(columns)[i] == columns[i].kind());
        }
    }
    if matches_kinds(fields, types, columns) {
        assert forall|i: int| 0 <= i < columns.len() implies field_kind(fields[types.len() + i])
            == #[trigger] kinds_of(columns)[i] by {
            assert(takes(fields[types.len() + i], columns[i]));
        }
    }
}

/// The batch under another schema.
pub fn with_schema(batch: &Batch, schema: &Arc<Schema>) -> (out: Result<Batch, BatchError>)
    ensures
        match out {
            Ok(o) => {
                &&& same_kinds(
                    schema_fields(**schema),
                    batch_types(*batch),
                    Seq::<FieldKind>::empty(),
                )
                &&& batch_rows(o) == batch_rows(*batch)
                &&& batch_fields(o) == schema_fields(**schema) && is_typed(o)
                &&& batch_columns(o) == batch_columns(*batch)
            },
            Err(e) => e is Arrow && !extends(
                schema_fields(**schema),
                *batch,
                Seq::<FieldKind>::empty(),
            ),
        },
{
    let columns: Vec<NewColumn> = Vec::new();
    proof {
        assert(batch_columns(*batch) + new_data(columns@) =~= batch_columns(*batch));
        lemma_extends_fits(shared_fields(schema), batch, columns@);
        assert(kinds_of(columns@) =~= Seq::<FieldKind>::empty());
    }
    match new_batch(Some(batch), schema, columns) {
        Ok(o) => Ok(o),
        Err(e) => Err(BatchError::Arrow(e)),
    }
}

// ---------------------------------------------------------------------------
// Synthetic blobs.
// ---------------------------------------------------------------------------

/// The byte of `value` at a position, the least significant first.
pub open spec fn le_byte(value: u64, at: int) -> u8 {
    ((value >> ((8 * at) as u64)) & 0xff) as u8
}

/// The bytes of `value` over and over, `n` in all.
pub open spec fn byte_pattern(value: u64, n: nat) -> Seq<u8> {
    Seq::new(n, |i: int| le_byte(value, i % 8))
}

fn byte_of(value: u64, at: u64) -> (b: u8)
    requires
        at < 8,
    ensures
        b == le_byte(value, at as int),
{
    let shifted: u64 = value >> (8 * at);
    let low: u64 = shifted & 0xff;
    assert(low <= 0xff) by (bit_vector)
        requires
            low == shifted & 0xff,
    ;
    low as u8
}

/// Fills a buffer with the bytes of a number, over and over.
pub fn fill_bytes_from_u64(value: u64, buf: &mut Vec<u8>)
    ensures
        final(buf)@ == byte_pattern(value, old(buf).len() as nat),
{
    let n: usize = buf.len();
    let mut i: usize = 0;
    while i < n
        invariant
            i <= n,
            buf.len() == n,
            forall|k: int| 0 <= k < i ==> #[trigger] buf@[k] == le_byte(value, k % 8),
        decreases n - i,
    {
        let b: u8 = byte_of(value, (i % 8) as u64);
        buf.set(i, b);
        i += 1;
    }
    assert(buf@ =~= byte_pattern(value, n as nat));
}

/// The number in a cell; an empty one counts as zero.
pub open spec fn cell_or_zero(cell: Option<u64>) -> u64 {
    match cell {
        Some(v) => v,
        None => 0,
    }
}

/// The blobs of some rows.
pub open spec fn row_blobs(ids: Seq<Option<u64>>, bytes_per_row: nat) -> Seq<Seq<u8>> {
    Seq::new(ids.len(), |i: int| byte_pattern(cell_or_zero(ids[i]), bytes_per_row))
}

fn make_row_blobs(ids: &Vec<Option<u64>>, bytes_per_row: usize) -> (out: Vec<Option<Vec<u8>>>)
    ensures
        opt_bytes_views(out@) == some_all(row_blobs(ids@, bytes_per_row as nat)),
        forall|k: int| 0 <= k < out@.len() ==> #[trigger] out@[k] is Some,
{
    let mut out: Vec<Option<Vec<u8>>> = Vec::new();
    let mut i: usize = 0;
    while i < ids.len()
        invariant
            i <= ids.len(),
            out.len() == i,
            forall|k: int|
                0 <= k < i ==> opt_bytes(#[trigger] out@[k]) == Some(
                    row_blobs(ids@, bytes_per_row as nat)[k],
                ),
        decreases ids.len() - i,
    {
        let id: u64 = match ids[i] {
            Some(v) => v,
            None => 0,
        };
        let mut buf: Vec<u8> = vec![0u8; bytes_per_row];
        fill_bytes_from_u64(id, &mut buf);
        out.push(Some(buf));
        i += 1;
    }
    assert(opt_bytes_views(out@) =~= some_all(row_blobs(ids@, bytes_per_row as nat)));
    out
}

/// The column of a name in a batch.
pub open spec fn column_named(batch: Batch, name: Seq<char>) -> ColumnData {
    batch_columns(batch)[first_named(batch_names(batch), name)]
}

/// The batch with a column of synthetic blobs, made of the row numbers.
pub fn with_fake_blobs(batch: &Batch, schema: &Arc<Schema>, bytes_per_row: usize) -> (out: Result<
    Batch,
    BatchError,
>)
    ensures
        match out {
            Ok(o) => {
                &&& batch_names(*batch).contains(BENCH_ROW_ID@)
                &&& column_named(*batch, BENCH_ROW_ID@) is U64
                &&& same_kinds(
                    schema_fields(**schema),
                    batch_types(*batch),
                    seq![FieldKind::LargeBinary],
                )
                &&& batch_rows(o) == batch_rows(*batch)
                &&& batch_fields(o) == schema_fields(**schema) && is_typed(o)
                &&& batch_columns(o) == batch_columns(*batch).push(
                    ColumnData::Bytes(
                        some_all(
                            row_blobs(
                                column_named(*batch, BENCH_ROW_ID@)->U64_0,
                                bytes_per_row as nat,
                            ),
                        ),
                    ),
                )
            },
            Err(BatchError::MissingColumn) => !batch_names(*batch).contains(BENCH_ROW_ID@),
            Err(BatchError::NotU64) => batch_names(*batch).contains(BENCH_ROW_ID@)
                && !(column_named(*batch, BENCH_ROW_ID@) is U64),
            Err(BatchError::Arrow(_)) => batch_names(*batch).contains(BENCH_ROW_ID@)
                && column_named(*batch, BENCH_ROW_ID@) is U64 && !extends(
                schema_fields(**schema),
                *batch,
                seq![FieldKind::LargeBinary],
            ),
        },
{
    match find_column(batch, BENCH_ROW_ID) {
        FoundColumn::Missing => Err(BatchError::MissingColumn),
        FoundColumn::Other => Err(BatchError::NotU64),
        FoundColumn::U64(ids) => {
            let blobs = make_row_blobs(&ids, bytes_per_row);
            assert(opt_bytes_views(blobs@).len() == blobs.len());
            let columns = vec![NewColumn::Bytes(blobs)];
            proof {
                assert(batch_columns(*batch) + new_data(columns@) =~= batch_columns(*batch).push(
                    columns@[0].data(),
                ));
                lemma_extends_fits(shared_fields(schema), batch, columns@);
                assert(kinds_of(columns@) =~= seq![FieldKind::LargeBinary]);
            }
            match new_batch(Some(batch), schema, columns) {
                Ok(o) => Ok(o),
                Err(e) => Err(BatchError::Arrow(e)),
            }
        },
    }
}

/// The default number of bytes of a synthetic blob.
pub const DEFAULT_FAKE_BLOB_BYTES: usize = 256;

/// How many bytes a synthetic blob has: what the user asks for, where it is a number, else the
/// default. Zero means no blobs.
pub fn fake_blob_bytes(setting: &Option<String>) -> (bytes: usize)
    ensures
        bytes == match crate::text::opt_view(*setting) {
            Some(s) => match crate::numbers::number_up_to(s, usize::MAX as nat) {
                Some(n) => n as usize,
                None => DEFAULT_FAKE_BLOB_BYTES,
            },
            None => DEFAULT_FAKE_BLOB_BYTES,
        },
{
    match setting {
        Some(s) => match crate::numbers::parse_usize(s.as_str()) {
            Some(n) => n,
            None => DEFAULT_FAKE_BLOB_BYTES,
        },
        None => DEFAULT_FAKE_BLOB_BYTES,
    }
}

// ---------------------------------------------------------------------------
// Derived columns and filters.
// ---------------------------------------------------------------------------

/// The derived column of a batch: the row number plus one, or ones where rows have no numbers.
pub open spec fn derived_values(batch: Batch) -> Seq<u64> {
    if batch_names(batch).contains(BENCH_ROW_ID@) && column_named(batch, BENCH_ROW_ID@) is U64 {
        let ids = column_named(batch, BENCH_ROW_ID@)->U64_0;
        Seq::new(ids.len(), |i: int| cell_or_zero(ids[i]).wrapping_add(1))
    } else {
        Seq::new(batch_rows(batch), |i: int| 1u64)
    }
}

fn make_derived(batch: &Batch) -> (out: Vec<u64>)
    ensures
        out@ == derived_values(*batch),
        out.len() == batch_rows(*batch),
{
    let mut out: Vec<u64> = Vec::new();
    match find_column(batch, BENCH_ROW_ID) {
        FoundColumn::U64(ids) => {
            let mut i: usize = 0;
            while i < ids.len()
                invariant
                    i <= ids.len(),
                    out.len() == i,
                    forall|k: int|
                        0 <= k < i ==> #[trigger] out@[k] == cell_or_zero(ids@[k]).wrapping_add(1),
                decreases ids.len() - i,
            {
                let id: u64 = match ids[i] {
                    Some(v) => v,
                    None => 0,
                };
                out.push(id.wrapping_add(1));
                i += 1;
            }
        },
        _ => {
            let n: usize = num_rows(batch);
            let mut i: usize = 0;
            while i < n
                invariant
                    i <= n,
                    out.len() == i,
                    forall|k: int| 0 <= k < i ==> #[trigger] out@[k] == 1,
                decreases n - i,
            {
                out.push(1);
                i += 1;
            }
        },
    }
    assert(out@ =~= derived_values(*batch));
    out
}

/// The batch with the derived column behind the others.
pub fn with_derived_column(batch: &Batch, schema: &Arc<Schema>) -> (out: Result<Batch, BatchError>)
    ensures
        match out {
            Ok(o) => {
                &&& same_kinds(
                    schema_fields(**schema),
                    batch_types(*batch),
                    seq![FieldKind::U64],
                )
                &&& batch_rows(o) == batch_rows(*batch)
                &&& batch_fields(o) == schema_fields(**schema) && is_typed(o)
                &&& batch_columns(o) == batch_columns(*batch).push(
                    ColumnData::U64(some_all(derived_values(*batch))),
                )
            },
            Err(e) => e is Arrow && !extends(
                schema_fields(**schema),
                *batch,
                seq![FieldKind::U64],
            ),
        },
{
    let columns = vec![NewColumn::U64(make_derived(batch))];
    proof {
        assert(batch_columns(*batch) + new_data(columns@) =~= batch_columns(*batch).push(
            ColumnData::U64(some_all(derived_values(*batch))),
        ));
        lemma_extends_fits(shared_fields(schema), batch, columns@);
        assert(kinds_of(columns@) =~= seq![FieldKind::U64]);
    }
    match new_batch(Some(batch), schema, columns) {
        Ok(o) => Ok(o),
        Err(e) => Err(BatchError::Arrow(e)),
    }
}

/// Which rows have a value below a threshold; a null is not below.
pub open spec fn below(values: Seq<Option<u64>>, threshold: u64) -> Seq<bool> {
    Seq::new(
        values.len(),
        |i: int|
            match values[i] {
                Some(v) => v < threshold,
                None => false,
            },
    )
}

/// Which rows have a value below a threshold.
pub fn lt_mask(values: &Vec<Option<u64>>, threshold: u64) -> (mask: Vec<bool>)
    ensures
        mask@ == below(values@, threshold),
{
    let mut mask: Vec<bool> = Vec::new();
    let mut i: usize = 0;
    while i < values.len()
        invariant
            i <= values.len(),
            mask@ == below(values@, threshold).take(i as int),
        decreases values.len() - i,
    {
        mask.push(
            match values[i] {
                Some(v) => v < threshold,
                None => false,
            },
        );
        i += 1;
        assert(mask@ =~= below(values@, threshold).take(i as int));
    }
    assert(mask@ =~= below(values@, threshold));
    mask
}

/// The rows of a batch whose column is below a threshold. The column has to hold unsigned 64 bit
/// numbers.
pub fn filter_record_batch_lt_u64(batch: &Batch, column: &str, threshold: u64) -> (out: Result<
    Batch,
    BatchError,
>)
    ensures
        match out {
            Ok(o) => {
                &&& batch_names(*batch).contains(column@)
                &&& column_named(*batch, column@) is U64
                &&& is_kept(o, *batch, below(column_named(*batch, column@)->U64_0, threshold))
            },
            Err(BatchError::MissingColumn) => !batch_names(*batch).contains(column@),
            Err(BatchError::NotU64) => batch_names(*batch).contains(column@) && !(column_named(
                *batch,
                column@,
            ) is U64),
            Err(BatchError::Arrow(_)) => batch_names(*batch).contains(column@) && column_named(
                *batch,
                column@,
            ) is U64 && !is_plain(*batch),
        },
{
    match find_column(batch, column) {
        FoundColumn::Missing => Err(BatchError::MissingColumn),
        FoundColumn::Other => Err(BatchError::NotU64),
        FoundColumn::U64(values) => {
            let mask = lt_mask(&values, threshold);
            match filter_batch(batch, mask) {
                Ok(o) => Ok(o),
                Err(e) => Err(BatchError::Arrow(e)),
            }
        },
    }
}

// ---------------------------------------------------------------------------
// Schemas and batches fit.
// ---------------------------------------------------------------------------

/// A batch can be given the schema of its dataset under clean names.
pub proof fn law_clean_schema_fits(batch: Batch, clean: Seq<Field>)
    requires
        is_typed(batch),
        batch_fields(batch).len() > 0,
        sanitized(clean, batch_fields(batch)),
    ensures
        extends(clean, batch, Seq::<FieldKind>::empty()),
{
}

/// A batch can be numbered under its schema with the helper columns behind.
pub proof fn law_helper_schema_fits(batch: Batch, out: Seq<Field>)
    requires
        is_typed(batch),
        with_helpers(out, batch_fields(batch)),
    ensures
        extends(out, batch, seq![FieldKind::U64, FieldKind::U64]),
{
    lemma_first_fields(batch, out);
}

/// A batch can get synthetic blobs under its schema with a blob column behind.
pub proof fn law_blob_schema_fits(batch: Batch, out: Seq<Field>, name: Seq<char>)
    requires
        is_typed(batch),
        out.len() == batch_fields(batch).len() + 1,
        out.take(batch_fields(batch).len() as int) == batch_fields(batch),
        is_new_blob_field(out.last(), name),
    ensures
        extends(out, batch, seq![FieldKind::LargeBinary]),
{
    lemma_first_fields(batch, out);
}

/// A batch can get the derived column under its schema with a column of numbers behind.
pub proof fn law_derived_schema_fits(batch: Batch, out: Seq<Field>, name: Seq<char>)
    requires
        is_typed(batch),
        out.len() == batch_fields(batch).len() + 1,
        out.take(batch_fields(batch).len() as int) == batch_fields(batch),
        is_u64_field(out.last(), name),
    ensures
        extends(out, batch, seq![FieldKind::U64]),
{
    lemma_first_fields(batch, out);
}

/// A batch can be given the schema in which compression is switched off.
pub proof fn law_uncompressed_schema_fits(batch: Batch, out: Seq<Field>)
    requires
        is_typed(batch),
        batch_fields(batch).len() > 0,
        out.len() == batch_fields(batch).len(),
        forall|i: int|
            0 <= i < out.len() ==> uncompressed(#[trigger] out[i], batch_fields(batch)[i]),
    ensures
        extends(out, batch, Seq::<FieldKind>::empty()),
{
}

proof fn lemma_first_fields(batch: Batch, out: Seq<Field>)
    requires
        is_typed(batch),
        batch_fields(batch).len() <= out.len(),
        out.take(batch_fields(batch).len() as int) == batch_fields(batch),
    ensures
        stand_for(out, batch),
        forall|i: int|
            0 <= i < batch_types(batch).len() ==> field_kind(#[trigger] out[i]) == type_kind(
                batch_types(batch)[i],
            ),
{
    let fields = batch_fields(batch);
    assert forall|i: int| 0 <= i < fields.len() implies #[trigger] out[i] == fields[i] by {
        assert(out.take(fields.len() as int)[i] == out[i]);
    }
}

} // verus!
