//! Batches of rows.
//!
//! Batches are those of `arrow_array`. What the library reads of them is given by the names
//! below; everything else about them is opaque.
use std::sync::Arc;

use arrow_array::{ArrayRef, BooleanArray, LargeBinaryArray, RecordBatch, StringArray, UInt64Array};
use arrow_schema::{ArrowError, DataType, Field, Schema};
use vstd::prelude::*;
use vstd::utf8::encode_utf8;

use crate::fields::{
    field_kind, field_nullable, field_type, names_of, schema_fields, type_kind, types_of, FieldKind,
};
use crate::text::opt_view;

verus! {

/// A batch of rows: the `RecordBatch` of `arrow_array`, held as it is.
#[verifier::external_body]
pub struct Batch {
    pub inner: arrow_array::RecordBatch,
}

/// Why `arrow_array` refuses to make a batch.
#[verifier::external_type_specification]
#[verifier::external_body]
pub struct ExArrowError(arrow_schema::ArrowError);

/// The values of a column, one per row: numbers of type `UInt64`, byte strings of type `Binary` or
/// `LargeBinary`, text of type `Utf8`. The values of any other type are not read but only told
/// apart: a number stands for what the row holds, a null too.
#[verifier::ext_equal]
pub enum ColumnData {
    U64(Seq<Option<u64>>),
    Bytes(Seq<Option<Seq<u8>>>),
    Text(Seq<Option<Seq<char>>>),
    Other(Seq<int>),
}

/// The number of rows of a batch.
pub uninterp spec fn batch_rows(batch: Batch) -> nat;

/// The fields of the schema of a batch, in order.
pub uninterp spec fn batch_fields(batch: Batch) -> Seq<Field>;

/// The names of the columns of a batch, in order.
pub open spec fn batch_names(batch: Batch) -> Seq<Seq<char>> {
    names_of(batch_fields(batch))
}

/// The values of the columns of a batch, in order.
pub uninterp spec fn batch_columns(batch: Batch) -> Seq<ColumnData>;

/// The types of the columns of a batch, in order.
pub uninterp spec fn batch_types(batch: Batch) -> Seq<DataType>;

/// Whether the columns of a batch have the types of its fields. This holds of every batch that is
/// put together here. A batch can also be made with fields that only resemble the types of its
/// columns, and filtering can change the type of a column.
pub open spec fn is_typed(batch: Batch) -> bool {
    batch_types(batch) == types_of(batch_fields(batch))
}

/// A column that was looked up by name.
pub enum FoundColumn {
    Missing,
    U64(Vec<Option<u64>>),
    Other,
}

/// The first position of a name, or the number of names.
pub open spec fn first_named(names: Seq<Seq<char>>, name: Seq<char>) -> int
    decreases names.len(),
{
    if names.len() == 0 {
        0
    } else if names[0] == name {
        0
    } else {
        1 + first_named(names.drop_first(), name)
    }
}

/// Whether `found` is the column of a name: the first one that has it.
pub open spec fn is_found(found: FoundColumn, batch: Batch, name: Seq<char>) -> bool {
    let at = first_named(batch_names(batch), name);
    match found {
        FoundColumn::Missing => !batch_names(batch).contains(name),
        FoundColumn::U64(values) => batch_names(batch).contains(name) && batch_columns(batch)[at]
            == ColumnData::U64(values@),
        FoundColumn::Other => batch_names(batch).contains(name) && !(batch_columns(
            batch,
        )[at] is U64),
    }
}

/// `RecordBatch::num_rows` returns the number of rows.
#[verifier::external_body]
pub(crate) fn num_rows(batch: &Batch) -> (rows: usize)
    ensures
        rows == batch_rows(*batch),
{
    batch.inner.num_rows()
}

/// `RecordBatch::column_by_name` finds the first column of a name; where it is an array of
/// unsigned 64 bit numbers its values are handed out. Every column has one value per row.
#[verifier::external_body]
pub(crate) fn find_column(batch: &Batch, name: &str) -> (found: FoundColumn)
    ensures
        is_found(found, *batch, name@),
        found matches FoundColumn::U64(values) ==> values.len() == batch_rows(*batch),
{
    match batch.inner.column_by_name(name) {
        None => FoundColumn::Missing,
        Some(column) => match column.as_any().downcast_ref::<UInt64Array>() {
            Some(values) => FoundColumn::U64(values.iter().collect()),
            None => FoundColumn::Other,
        },
    }
}

/// The elements at the positions where `mask` is true.
pub open spec fn kept<T>(s: Seq<T>, mask: Seq<bool>) -> Seq<T>
    decreases mask.len(),
{
    if mask.len() == 0 || s.len() != mask.len() {
        Seq::empty()
    } else if mask.last() {
        kept(s.drop_last(), mask.drop_last()).push(s.last())
    } else {
        kept(s.drop_last(), mask.drop_last())
    }
}

/// How many positions of `mask` are true.
pub open spec fn count_true(mask: Seq<bool>) -> nat
    decreases mask.len(),
{
    if mask.len() == 0 {
        0
    } else {
        count_true(mask.drop_last()) + if mask.last() {
            1nat
        } else {
            0
        }
    }
}

/// A column with only the rows where `mask` is true.
pub open spec fn kept_column(column: ColumnData, mask: Seq<bool>) -> ColumnData {
    match column {
        ColumnData::U64(s) => ColumnData::U64(kept(s, mask)),
        ColumnData::Bytes(s) => ColumnData::Bytes(kept(s, mask)),
        ColumnData::Text(s) => ColumnData::Text(kept(s, mask)),
        ColumnData::Other(s) => ColumnData::Other(kept(s, mask)),
    }
}

/// Whether `out` is `batch` with only the rows where `mask` is true. Columns of numbers, byte
/// strings or text keep their types. Of other columns this is not said: one that is encoded by
/// runs can get other names for its inner fields.
pub open spec fn is_kept(out: Batch, batch: Batch, mask: Seq<bool>) -> bool {
    &&& batch_rows(out) == count_true(mask)
    &&& batch_fields(out) == batch_fields(batch)
    &&& batch_types(out).len() == batch_types(batch).len()
    &&& forall|i: int|
        0 <= i < batch_types(batch).len() && !(batch_columns(batch)[i] is Other)
            ==> #[trigger] batch_types(out)[i] == batch_types(batch)[i]
    &&& batch_columns(out) == Seq::new(
        batch_columns(batch).len(),
        |i: int| kept_column(batch_columns(batch)[i], mask),
    )
}

/// Whether every column holds numbers, byte strings or text.
pub open spec fn is_plain(batch: Batch) -> bool {
    forall|i: int| 0 <= i < batch_columns(batch).len() ==> !(#[trigger] batch_columns(
        batch,
    )[i] is Other)
}

/// `arrow_select::filter::filter_record_batch` returns the rows for which the mask, one value per
/// row, is true. Columns of numbers, byte strings or text are never refused and keep their types;
/// whether other columns keep theirs is left open.
#[verifier::external_body]
pub(crate) fn filter_batch(batch: &Batch, mask: Vec<bool>) -> (out: Result<Batch, ArrowError>)
    requires
        mask.len() == batch_rows(*batch),
    ensures
        out matches Ok(o) ==> is_kept(o, *batch, mask@),
        is_plain(*batch) ==> out is Ok,
{
    let mask = BooleanArray::from(mask);
    let inner = arrow_select::filter::filter_record_batch(&batch.inner, &mask)?;
    Ok(Batch { inner })
}

/// Values without nulls.
pub open spec fn some_all<T>(s: Seq<T>) -> Seq<Option<T>> {
    Seq::new(s.len(), |i: int| Some(s[i]))
}

/// The contents of a list of optional strings.
pub open spec fn opt_views(items: Seq<Option<String>>) -> Seq<Option<Seq<char>>> {
    Seq::new(items.len(), |i: int| opt_view(items[i]))
}

/// The contents of an optional byte string.
pub open spec fn opt_bytes(item: Option<Vec<u8>>) -> Option<Seq<u8>> {
    match item {
        Some(b) => Some(b@),
        None => None,
    }
}

/// The contents of a list of optional byte strings.
pub open spec fn opt_bytes_views(items: Seq<Option<Vec<u8>>>) -> Seq<Option<Seq<u8>>> {
    Seq::new(items.len(), |i: int| opt_bytes(items[i]))
}

/// The most bytes that the values of a text column have in all.
pub const MAX_TEXT_BYTES: u64 = 0x7fff_ffff;

/// The bytes of a text that may be missing.
pub open spec fn bytes_of(text: Option<Seq<char>>) -> nat {
    match text {
        Some(t) => encode_utf8(t).len(),
        None => 0,
    }
}

/// The bytes of some texts in all.
pub open spec fn text_bytes(texts: Seq<Option<Seq<char>>>) -> nat
    decreases texts.len(),
{
    if texts.len() == 0 {
        0
    } else {
        text_bytes(texts.drop_last()) + bytes_of(texts.last())
    }
}

pub proof fn lemma_text_bytes(texts: Seq<Option<Seq<char>>>, n: int)
    requires
        0 <= n <= texts.len(),
    ensures
        text_bytes(texts.take(n)) <= text_bytes(texts),
    decreases texts.len(),
{
    if n < texts.len() {
        lemma_text_bytes(texts.drop_last(), n);
        assert(texts.drop_last().take(n) =~= texts.take(n));
    } else {
        assert(texts.take(n) =~= texts);
    }
}

/// The bytes of texts with one more, while one column can have them.
pub(crate) fn add_text(total: u64, text: &Option<String>) -> (sum: Option<u64>)
    requires
        total <= MAX_TEXT_BYTES,
    ensures
        sum == if total + bytes_of(opt_view(*text)) <= MAX_TEXT_BYTES {
            Some((total + bytes_of(opt_view(*text))) as u64)
        } else {
            None
        },
{
    match text {
        Some(t) => {
            let n: usize = t.as_str().as_bytes().len();
            if n as u64 > MAX_TEXT_BYTES - total {
                None
            } else {
                Some(total + n as u64)
            }
        },
        None => Some(total),
    }
}

/// The values of a new column.
pub enum NewColumn {
    U64(Vec<u64>),
    Bytes(Vec<Option<Vec<u8>>>),
    Text(Vec<Option<String>>),
}

impl NewColumn {
    /// The values.
    pub open spec fn data(self) -> ColumnData {
        match self {
            NewColumn::U64(values) => ColumnData::U64(some_all(values@)),
            NewColumn::Bytes(values) => ColumnData::Bytes(opt_bytes_views(values@)),
            NewColumn::Text(values) => ColumnData::Text(opt_views(values@)),
        }
    }

    /// The kind of the type that the values have.
    pub open spec fn kind(self) -> FieldKind {
        match self {
            NewColumn::U64(_) => FieldKind::U64,
            NewColumn::Bytes(_) => FieldKind::LargeBinary,
            NewColumn::Text(_) => FieldKind::Utf8,
        }
    }

    /// The number of values.
    pub open spec fn rows(self) -> nat {
        match self {
            NewColumn::U64(values) => values@.len(),
            NewColumn::Bytes(values) => values@.len(),
            NewColumn::Text(values) => values@.len(),
        }
    }

    /// Whether the values are few enough: text is bounded.
    pub open spec fn is_small(self) -> bool {
        match self {
            NewColumn::Text(values) => text_bytes(opt_views(values@)) <= MAX_TEXT_BYTES,
            _ => true,
        }
    }

    /// Whether no value is missing.
    pub open spec fn is_full(self) -> bool {
        match self {
            NewColumn::U64(_) => true,
            NewColumn::Bytes(values) => forall|i: int|
                0 <= i < values@.len() ==> #[trigger] values@[i] is Some,
            NewColumn::Text(values) => forall|i: int|
                0 <= i < values@.len() ==> #[trigger] values@[i] is Some,
        }
    }
}

/// The values of new columns.
pub open spec fn new_data(columns: Seq<NewColumn>) -> Seq<ColumnData> {
    Seq::new(columns.len(), |i: int| columns[i].data())
}

/// The types of the columns of a batch that may be missing.
pub open spec fn base_types(base: Option<&Batch>) -> Seq<DataType> {
    match base {
        Some(b) => batch_types(*b),
        None => Seq::empty(),
    }
}

/// The columns of a batch that may be missing.
pub open spec fn base_columns(base: Option<&Batch>) -> Seq<ColumnData> {
    match base {
        Some(b) => batch_columns(*b),
        None => Seq::empty(),
    }
}

/// The number of rows of a batch, or of new columns where there is none.
pub open spec fn base_rows(base: Option<&Batch>, columns: Seq<NewColumn>) -> nat {
    match base {
        Some(b) => batch_rows(*b),
        None => columns[0].rows(),
    }
}

/// Whether every new column has so many values, and no more than it can have.
pub open spec fn all_of_length(columns: Seq<NewColumn>, rows: nat) -> bool {
    forall|i: int|
        0 <= i < columns.len() ==> (#[trigger] columns[i]).rows() == rows && columns[i].is_small()
}

/// Whether a field can have a new column.
pub open spec fn takes(field: Field, column: NewColumn) -> bool {
    field_kind(field) == column.kind() && (field_nullable(field) || column.is_full())
}

/// Whether there are as many fields as columns of some types and new ones behind them, at least
/// one, and of the same kinds; and no field without nulls gets a new column with one.
pub open spec fn matches_kinds(
    fields: Seq<Field>,
    types: Seq<DataType>,
    columns: Seq<NewColumn>,
) -> bool {
    &&& fields.len() == types.len() + columns.len()
    &&& fields.len() > 0
    &&& forall|i: int|
        0 <= i < types.len() ==> field_kind(#[trigger] fields[i]) == type_kind(types[i])
    &&& forall|i: int|
        0 <= i < columns.len() ==> takes(fields[types.len() + i], #[trigger] columns[i])
}

/// Whether the first fields have the types of the columns of a batch and allow as much as its own
/// fields do.
pub open spec fn stand_for(fields: Seq<Field>, batch: Batch) -> bool {
    forall|i: int|
        0 <= i < batch_types(batch).len() ==> field_type(#[trigger] fields[i])
            == batch_types(batch)[i] && (field_nullable(fields[i]) || !field_nullable(
            batch_fields(batch)[i],
        ))
}

/// Whether fields fit the columns of a batch, where there is one, and new ones behind them.
pub open spec fn fits(fields: Seq<Field>, base: Option<&Batch>, columns: Seq<NewColumn>) -> bool {
    &&& matches_kinds(fields, base_types(base), columns)
    &&& base matches Some(b) ==> stand_for(fields, *b)
}

/// Whether there are as many fields as columns of some types and full ones of some kinds behind
/// them, at least one, and of the same kinds.
pub open spec fn same_kinds(
    fields: Seq<Field>,
    types: Seq<DataType>,
    kinds: Seq<FieldKind>,
) -> bool {
    &&& fields.len() == types.len() + kinds.len()
    &&& fields.len() > 0
    &&& forall|i: int|
        0 <= i < types.len() ==> field_kind(#[trigger] fields[i]) == type_kind(types[i])
    &&& forall|i: int|
        0 <= i < kinds.len() ==> field_kind(fields[types.len() + i]) == #[trigger] kinds[i]
}

/// Whether fields fit the columns of a batch and full ones of some kinds behind them.
pub open spec fn extends(fields: Seq<Field>, batch: Batch, kinds: Seq<FieldKind>) -> bool {
    same_kinds(fields, batch_types(batch), kinds) && stand_for(fields, batch)
}

/// `RecordBatch::try_new` makes a batch of a schema and columns. The columns are those of a batch,
/// where there is one, and new ones behind them; a missing value is a null. Columns that fit the
/// fields of the schema are never refused. Refused are no columns at all, columns that are not as
/// many as the fields, columns of other types, and nulls where a field has none. Text of more bytes
/// than a column can have panics.
#[verifier::external_body]
pub(crate) fn new_batch(
    base: Option<&Batch>,
    schema: &Arc<Schema>,
    columns: Vec<NewColumn>,
) -> (out: Result<Batch, ArrowError>)
    requires
        all_of_length(columns@, base_rows(base, columns@)),
    ensures
        out is Ok ==> matches_kinds(schema_fields(**schema), base_types(base), columns@),
        fits(schema_fields(**schema), base, columns@) ==> out is Ok,
        out matches Ok(o) ==> batch_rows(o) == base_rows(base, columns@),
        out matches Ok(o) ==> batch_fields(o) == schema_fields(**schema),
        out matches Ok(o) ==> batch_types(o) == types_of(schema_fields(**schema)),
        out matches Ok(o) ==> batch_columns(o) == base_columns(base) + new_data(columns@),
{
    let mut arrays = base.map(|b| b.inner.columns().to_vec()).unwrap_or_default();
    arrays.extend(columns.into_iter().map(|column| match column {
        NewColumn::U64(values) => Arc::new(UInt64Array::from(values)) as ArrayRef,
        NewColumn::Bytes(values) => Arc::new(LargeBinaryArray::from_iter(values)),
        NewColumn::Text(values) => Arc::new(StringArray::from(values)),
    }));
    Ok(Batch { inner: RecordBatch::try_new(schema.clone(), arrays)? })
}

} // verus!
