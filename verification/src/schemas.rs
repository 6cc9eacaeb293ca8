//! The schemas of the benchmark datasets: clean names, helper columns and blob marks.
use std::sync::Arc;

use arrow_schema::{Field, Schema};
use vstd::prelude::*;

use crate::commits::occurrences;
use crate::fields::{
    copied_field, field_kind, field_metadata, field_name, field_nullable, field_type, fields_of,
    kind_of, marked_field, metadata_value, names_of, new_field, no_metadata, renamed_field,
    schema_fields, schema_like, schema_metadata, schema_with, FieldKind,
};
use crate::numbers::{bool_word, decimal, push_decimal};
use crate::text::{chars_of, text_eq, views};

verus! {

/// The column that numbers the rows.
pub const BENCH_ROW_ID: &'static str = "bench_row_id";

/// The column of evenly spread numbers.
pub const BENCH_SMALL_U64: &'static str = "bench_small_u64";

// ---------------------------------------------------------------------------
// Names.
// ---------------------------------------------------------------------------

/// Whether a character may stand in a column name.
pub open spec fn is_plain(c: char) -> bool {
    ('a' <= c && c <= 'z') || ('A' <= c && c <= 'Z') || ('0' <= c && c <= '9') || c == '_'
}

/// A column name with every other character replaced; an empty one gets a name.
pub open spec fn clean_name(name: Seq<char>) -> Seq<char> {
    if name.len() == 0 {
        "col"@
    } else {
        Seq::new(
            name.len(),
            |i: int|
                if is_plain(name[i]) {
                    name[i]
                } else {
                    '_'
                },
        )
    }
}

/// A column name of plain characters.
pub fn sanitize_field_name(name: &str) -> (out: String)
    ensures
        out@ == clean_name(name@),
{
    let chars = chars_of(name);
    if chars.len() == 0 {
        return "col".to_owned();
    }
    let mut out = String::new();
    let mut i: usize = 0;
    while i < chars.len()
        invariant
            i <= chars.len(),
            chars@ == name@,
            chars.len() > 0,
            out@ == clean_name(name@).take(i as int),
        decreases chars.len() - i,
    {
        let c = chars[i];
        if ('a' <= c && c <= 'z') || ('A' <= c && c <= 'Z') || ('0' <= c && c <= '9') || c == '_' {
            out.push(c);
        } else {
            out.push('_');
        }
        i += 1;
        assert(out@ =~= clean_name(name@).take(i as int));
    }
    assert(out@ =~= clean_name(name@));
    out
}

/// The clean names of some columns.
pub open spec fn clean_names(names: Seq<Seq<char>>) -> Seq<Seq<char>> {
    Seq::new(names.len(), |i: int| clean_name(names[i]))
}

/// The name of the column at `at`: its clean name, with a number where an earlier column has the
/// same one.
pub open spec fn numbered_name(names: Seq<Seq<char>>, at: int) -> Seq<char> {
    let base = clean_names(names)[at];
    let earlier = occurrences(clean_names(names).take(at), base);
    if earlier == 0 {
        base
    } else {
        base + "_"@ + decimal(earlier)
    }
}

/// Whether a field is `field` under another name.
pub open spec fn same_but_name(out: Field, field: Field, name: Seq<char>) -> bool {
    &&& field_name(out) == name
    &&& field_type(out) == field_type(field)
    &&& field_nullable(out) == field_nullable(field)
    &&& field_metadata(out) == field_metadata(field)
}

/// Whether `out` is `fields` under clean, numbered names.
pub open spec fn sanitized(out: Seq<Field>, fields: Seq<Field>) -> bool {
    &&& out.len() == fields.len()
    &&& forall|i: int|
        0 <= i < fields.len() ==> same_but_name(
            #[trigger] out[i],
            fields[i],
            numbered_name(names_of(fields), i),
        )
}

fn count_earlier(bases: &Vec<String>, base: &str) -> (n: usize)
    ensures
        n == occurrences(views(bases@), base@),
{
    let ghost all = views(bases@);
    let mut n: usize = 0;
    let mut i: usize = 0;
    assert(all.take(0) =~= Seq::<Seq<char>>::empty());
    while i < bases.len()
        invariant
            i <= bases.len(),
            n <= i,
            all == views(bases@),
            n == occurrences(all.take(i as int), base@),
        decreases bases.len() - i,
    {
        assert(all.take(i as int + 1).drop_last() =~= all.take(i as int));
        if text_eq(bases[i].as_str(), base) {
            n += 1;
        }
        i += 1;
    }
    assert(all.take(all.len() as int) =~= all);
    n
}

/// The schema under clean, numbered names, without its metadata.
pub fn sanitize_schema(schema: &Schema) -> (out: Arc<Schema>)
    ensures
        sanitized(schema_fields(*out), schema_fields(*schema)),
        schema_metadata(*out) == no_metadata(),
{
    let fields = fields_of(schema);
    let ghost names = names_of(fields@);
    let mut bases: Vec<String> = Vec::new();
    let mut clean: Vec<Field> = Vec::new();
    let mut i: usize = 0;
    assert(views(bases@) =~= clean_names(names).take(0));
    while i < fields.len()
        invariant
            i <= fields.len(),
            names == names_of(fields@),
            clean.len() == i,
            views(bases@) == clean_names(names).take(i as int),
            forall|k: int|
                0 <= k < i ==> same_but_name(
                    #[trigger] clean@[k],
                    fields@[k],
                    numbered_name(names, k),
                ),
        decreases fields.len() - i,
    {
        let base = sanitize_field_name(fields[i].name().as_str());
        let n: usize = count_earlier(&bases, base.as_str());
        let mut name = base.clone();
        if n > 0 {
            name.append("_");
            push_decimal(&mut name, n as u128);
        }
        assert(names[i as int] == field_name(fields@[i as int]));
        assert(base@ == clean_names(names)[i as int]);
        clean.push(renamed_field(&fields[i], name.as_str()));
        let ghost before = views(bases@);
        bases.push(base);
        assert(views(bases@) =~= before.push(base@));
        assert(clean_names(names).take(i as int + 1) =~= clean_names(names).take(i as int).push(
            base@,
        ));
        i += 1;
    }
    schema_with(clean)
}

/// After cleaning, every column name is made of plain characters and none is empty.
pub proof fn law_sanitized_names_are_plain(names: Seq<Seq<char>>, at: int)
    requires
        0 <= at < names.len(),
    ensures
        numbered_name(names, at).len() > 0,
        forall|i: int|
            0 <= i < numbered_name(names, at).len() ==> is_plain(
                #[trigger] numbered_name(names, at)[i],
            ),
{
    reveal_strlit("col");
    reveal_strlit("_");
    let base = clean_names(names)[at];
    assert(base == clean_name(names[at]));
    assert(forall|i: int| 0 <= i < base.len() ==> is_plain(#[trigger] base[i]));
    let n = occurrences(clean_names(names).take(at), base);
    lemma_decimal_plain(n);
    let full = numbered_name(names, at);
    assert forall|i: int| 0 <= i < full.len() implies is_plain(#[trigger] full[i]) by {
        if n > 0 && i > base.len() {
            assert(full[i] == decimal(n)[i - base.len() - 1]);
        }
    }
}

proof fn lemma_decimal_plain(n: nat)
    ensures
        forall|i: int| 0 <= i < decimal(n).len() ==> is_plain(#[trigger] decimal(n)[i]),
    decreases n,
{
    if n >= 10 {
        lemma_decimal_plain(n / 10);
        assert forall|i: int| 0 <= i < decimal(n).len() implies is_plain(
            #[trigger] decimal(n)[i],
        ) by {
            if i < decimal(n).len() - 1 {
                assert(decimal(n)[i] == decimal(n / 10)[i]);
            }
        }
    }
}

// ---------------------------------------------------------------------------
// Helper columns.
// ---------------------------------------------------------------------------

/// A schema holds one of the two helper columns, but not the other.
#[derive(Debug, Clone, Copy, PartialEq, Eq, Structural)]
pub struct HelperColumnsError {
    pub has_row_id: bool,
    pub has_small_u64: bool,
}

impl HelperColumnsError {
    /// The message for the user.
    pub fn message(&self) -> (text: String)
        ensures
            text@
                == "input schema must contain both helper columns or none, found bench_row_id="@
                + bool_word(self.has_row_id) + ", bench_small_u64="@ + bool_word(
                self.has_small_u64,
            ),
    {
        let mut text =
            "input schema must contain both helper columns or none, found bench_row_id=".to_owned();
        text.append(if self.has_row_id { "true" } else { "false" });
        text.append(", bench_small_u64=");
        text.append(if self.has_small_u64 { "true" } else { "false" });
        text
    }
}

/// Whether `fields` has a field of a name.
pub fn has_field(fields: &Vec<Field>, name: &str) -> (found: bool)
    ensures
        found == names_of(fields@).contains(name@),
{
    let mut i: usize = 0;
    while i < fields.len()
        invariant
            i <= fields.len(),
            forall|j: int| 0 <= j < i ==> #[trigger] names_of(fields@)[j] != name@,
        decreases fields.len() - i,
    {
        assert(names_of(fields@)[i as int] == field_name(fields@[i as int]));
        if text_eq(fields[i].name().as_str(), name) {
            return true;
        }
        i += 1;
    }
    false
}

/// Whether `field` is a column of unsigned 64 bit numbers without nulls.
pub open spec fn is_u64_field(field: Field, name: Seq<char>) -> bool {
    &&& field_name(field) == name
    &&& field_kind(field) == FieldKind::U64
    &&& !field_nullable(field)
    &&& field_metadata(field) == no_metadata()
}

/// Whether `out` is `fields` with the two helper columns behind.
pub open spec fn with_helpers(out: Seq<Field>, fields: Seq<Field>) -> bool {
    &&& out.len() == fields.len() + 2
    &&& out.take(fields.len() as int) == fields
    &&& is_u64_field(out[fields.len() as int], BENCH_ROW_ID@)
    &&& is_u64_field(out[fields.len() as int + 1], BENCH_SMALL_U64@)
}

/// The schema with the helper columns, without its metadata. A schema that has both stays as it
/// is; one that has only one of them is an error.
pub fn add_helper_fields(schema: &Schema) -> (out: Result<Option<Arc<Schema>>, HelperColumnsError>)
    ensures
        ({
            let names = names_of(schema_fields(*schema));
            let has_row_id = names.contains(BENCH_ROW_ID@);
            let has_small_u64 = names.contains(BENCH_SMALL_U64@);
            match out {
                Ok(None) => has_row_id && has_small_u64,
                Ok(Some(s)) => !has_row_id && !has_small_u64 && with_helpers(
                    schema_fields(*s),
                    schema_fields(*schema),
                ) && schema_metadata(*s) == no_metadata(),
                Err(e) => has_row_id != has_small_u64 && e == (HelperColumnsError {
                    has_row_id,
                    has_small_u64,
                }),
            }
        }),
{
    let mut fields = fields_of(schema);
    let has_row_id = has_field(&fields, BENCH_ROW_ID);
    let has_small_u64 = has_field(&fields, BENCH_SMALL_U64);
    if has_row_id && has_small_u64 {
        return Ok(None);
    }
    if has_row_id || has_small_u64 {
        return Err(HelperColumnsError { has_row_id, has_small_u64 });
    }
    let ghost before = fields@;
    fields.push(new_field(BENCH_ROW_ID, FieldKind::U64, false));
    fields.push(new_field(BENCH_SMALL_U64, FieldKind::U64, false));
    assert(fields@.take(before.len() as int) =~= before);
    Ok(Some(schema_with(fields)))
}

/// The schema with one more column of numbers behind the others, without its metadata.
pub fn add_u64_field(schema: &Schema, name: &str) -> (out: Arc<Schema>)
    ensures
        ({
            let fields = schema_fields(*schema);
            let new = schema_fields(*out);
            &&& new.len() == fields.len() + 1
            &&& new.take(fields.len() as int) == fields
            &&& is_u64_field(new.last(), name@)
            &&& schema_metadata(*out) == no_metadata()
        }),
{
    let mut fields = fields_of(schema);
    let ghost before = fields@;
    fields.push(new_field(name, FieldKind::U64, false));
    assert(fields@.take(before.len() as int) =~= before);
    schema_with(fields)
}

// ---------------------------------------------------------------------------
// Blob columns.
// ---------------------------------------------------------------------------

/// `lance_arrow::BLOB_META_KEY` is the metadata key that marks a column as a blob.
#[verifier::external_body]
fn blob_meta_key() -> (key: &'static str)
    ensures
        key@ == "lance-encoding:blob"@,
{
    lance_arrow::BLOB_META_KEY
}

/// Whether `field` is a nullable column of large binary values that is marked as a blob.
pub open spec fn is_new_blob_field(field: Field, name: Seq<char>) -> bool {
    &&& field_name(field) == name
    &&& field_kind(field) == FieldKind::LargeBinary
    &&& field_nullable(field)
    &&& field_metadata(field) == no_metadata().insert("lance-encoding:blob"@, "true"@)
}

fn new_blob_field(name: &str) -> (field: Field)
    ensures
        is_new_blob_field(field, name@),
{
    let field = new_field(name, FieldKind::LargeBinary, true);
    marked_field(&field, blob_meta_key(), "true")
}

/// The schema with one more column, of blobs, without its metadata.
pub fn add_blob_field(schema: &Schema, name: &str) -> (out: Arc<Schema>)
    ensures
        ({
            let fields = schema_fields(*schema);
            let new = schema_fields(*out);
            &&& new.len() == fields.len() + 1
            &&& new.take(fields.len() as int) == fields
            &&& is_new_blob_field(new.last(), name@)
            &&& schema_metadata(*out) == no_metadata()
        }),
{
    let mut fields = fields_of(schema);
    let ghost before = fields@;
    fields.push(new_blob_field(name));
    assert(fields@.take(before.len() as int) =~= before);
    schema_with(fields)
}

/// Whether `field` is a column of text.
pub open spec fn is_text_field(field: Field, name: Seq<char>, nullable: bool) -> bool {
    &&& field_name(field) == name
    &&& field_kind(field) == FieldKind::Utf8
    &&& field_nullable(field) == nullable
    &&& field_metadata(field) == no_metadata()
}

/// The schema of images with captions: a key, a caption, the image as a blob, and its format.
pub fn web_schema() -> (out: Arc<Schema>)
    ensures
        ({
            let fields = schema_fields(*out);
            &&& fields.len() == 4
            &&& is_text_field(fields[0], "key"@, false)
            &&& is_text_field(fields[1], "caption"@, true)
            &&& is_new_blob_field(fields[2], "image"@)
            &&& is_text_field(fields[3], "image_ext"@, true)
            &&& schema_metadata(*out) == no_metadata()
        }),
{
    let mut fields: Vec<Field> = Vec::new();
    fields.push(new_field("key", FieldKind::Utf8, false));
    fields.push(new_field("caption", FieldKind::Utf8, true));
    fields.push(new_blob_field("image"));
    fields.push(new_field("image_ext", FieldKind::Utf8, true));
    schema_with(fields)
}

/// Whether a column is marked as a blob and holds large binary values.
pub open spec fn is_legacy_blob(field: Field) -> bool {
    &&& field_metadata(field).contains_pair("lance-encoding:blob"@, "true"@)
    &&& field_kind(field) == FieldKind::LargeBinary
}

/// Whether a column is marked as a blob and holds large binary values.
pub fn is_legacy_blob_field(field: &Field) -> (yes: bool)
    ensures
        yes == is_legacy_blob(*field),
{
    let marked = match metadata_value(field, blob_meta_key()) {
        Some(v) => text_eq(v.as_str(), "true"),
        None => false,
    };
    marked && kind_of(field) == FieldKind::LargeBinary
}

/// The positions of the blob columns, in order.
pub open spec fn blob_positions(fields: Seq<Field>) -> Seq<int>
    decreases fields.len(),
{
    if fields.len() == 0 {
        Seq::empty()
    } else {
        let front = blob_positions(fields.drop_last());
        if is_legacy_blob(fields.last()) {
            front.push(fields.len() - 1)
        } else {
            front
        }
    }
}

/// A list of positions as integers.
pub open spec fn positions_view(positions: Seq<usize>) -> Seq<int> {
    Seq::new(positions.len(), |i: int| positions[i] as int)
}

/// The columns to turn into blobs of the newer kind: those marked as blobs, where the file
/// version has that kind.
pub fn blob_v2_columns(schema: &Schema, has_blob_v2: bool) -> (columns: Vec<usize>)
    ensures
        positions_view(columns@) == if has_blob_v2 {
            blob_positions(schema_fields(*schema))
        } else {
            Seq::<int>::empty()
        },
{
    let mut columns: Vec<usize> = Vec::new();
    if !has_blob_v2 {
        assert(positions_view(columns@) =~= Seq::<int>::empty());
        return columns;
    }
    let fields = fields_of(schema);
    let mut i: usize = 0;
    assert(fields@.take(0) =~= Seq::<Field>::empty());
    assert(positions_view(columns@) =~= Seq::<int>::empty());
    while i < fields.len()
        invariant
            i <= fields.len(),
            positions_view(columns@) == blob_positions(fields@.take(i as int)),
        decreases fields.len() - i,
    {
        assert(fields@.take(i as int + 1).drop_last() =~= fields@.take(i as int));
        if is_legacy_blob_field(&fields[i]) {
            let ghost before = positions_view(columns@);
            columns.push(i);
            assert(positions_view(columns@) =~= before.push(i as int));
        }
        i += 1;
    }
    assert(fields@.take(fields@.len() as int) =~= fields@);
    columns
}

// ---------------------------------------------------------------------------
// Compression of binary columns.
// ---------------------------------------------------------------------------

/// Whether a column holds binary values.
pub open spec fn is_binary(field: Field) -> bool {
    field_kind(field) == FieldKind::Binary || field_kind(field) == FieldKind::LargeBinary
        || field_kind(field) == FieldKind::BinaryView
}

/// Whether a column's compression has to be switched off: it is binary and not so marked yet.
pub open spec fn needs_compression_mark(field: Field) -> bool {
    is_binary(field) && !field_metadata(field).contains_pair(
        "lance-encoding:compression"@,
        "none"@,
    )
}

/// Whether `out` is `field` with compression switched off where it is binary.
pub open spec fn uncompressed(out: Field, field: Field) -> bool {
    &&& field_name(out) == field_name(field)
    &&& field_type(out) == field_type(field)
    &&& field_nullable(out) == field_nullable(field)
    &&& field_metadata(out) == if is_binary(field) {
        field_metadata(field).insert("lance-encoding:compression"@, "none"@)
    } else {
        field_metadata(field)
    }
}

/// The field with compression switched off where it is binary, and whether that changes it.
pub fn set_binary_compression_none(field: &Field) -> (out: (Field, bool))
    ensures
        uncompressed(out.0, *field),
        out.1 == needs_compression_mark(*field),
{
    let kind = kind_of(field);
    if kind != FieldKind::Binary && kind != FieldKind::LargeBinary && kind != FieldKind::BinaryView {
        return (copied_field(field), false);
    }
    let changed = match metadata_value(field, "lance-encoding:compression") {
        Some(v) => !text_eq(v.as_str(), "none"),
        None => true,
    };
    (marked_field(field, "lance-encoding:compression", "none"), changed)
}

/// Switching compression off once is enough: a field so treated needs no further change.
pub proof fn law_uncompressed_is_final(out: Field, field: Field)
    requires
        uncompressed(out, field),
    ensures
        !needs_compression_mark(out),
        forall|again: Field| #[trigger] uncompressed(again, out) ==> field_metadata(again) == field_metadata(out),
{
    assert forall|again: Field| #[trigger] uncompressed(again, out) implies field_metadata(again)
        == field_metadata(out) by {
        assert(field_metadata(again) =~= field_metadata(out));
    }
}

/// The schema with compression of binary columns switched off, under its own metadata; nothing
/// where that changes no column.
pub fn uncompressed_schema(schema: &Schema) -> (out: Option<Arc<Schema>>)
    ensures
        match out {
            Some(s) => {
                let fields = schema_fields(*schema);
                &&& exists|i: int| 0 <= i < fields.len() && needs_compression_mark(#[trigger] fields[i])
                &&& schema_metadata(*s) == schema_metadata(*schema)
                &&& schema_fields(*s).len() == fields.len()
                &&& forall|i: int|
                    0 <= i < fields.len() ==> uncompressed(
                        #[trigger] schema_fields(*s)[i],
                        fields[i],
                    )
            },
            None => forall|i: int|
                0 <= i < schema_fields(*schema).len() ==> !needs_compression_mark(
                    #[trigger] schema_fields(*schema)[i],
                ),
        },
{
    let fields = fields_of(schema);
    let mut next: Vec<Field> = Vec::new();
    let mut changed = false;
    let mut i: usize = 0;
    while i < fields.len()
        invariant
            i <= fields.len(),
            next.len() == i,
            forall|k: int| 0 <= k < i ==> uncompressed(#[trigger] next@[k], fields@[k]),
            changed == exists|k: int| 0 <= k < i && needs_compression_mark(#[trigger] fields@[k]),
        decreases fields.len() - i,
    {
        let (field, field_changed) = set_binary_compression_none(&fields[i]);
        let ghost before = changed;
        changed = changed || field_changed;
        next.push(field);
        i += 1;
        proof {
            if field_changed {
                assert(needs_compression_mark(fields@[i as int - 1]));
            }
            if before {
                let k = choose|k: int|
                    0 <= k < i - 1 && needs_compression_mark(#[trigger] fields@[k]);
                assert(needs_compression_mark(fields@[k]));
            }
        }
    }
    if !changed {
        return None;
    }
    Some(schema_like(schema, next))
}

} // verus!
