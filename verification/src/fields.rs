//! Schemas and their fields.
//!
//! Fields and schemas are those of `arrow_schema`. What the library reads of them is given by
//! the names below; everything else about them is opaque.
use std::sync::Arc;

use arrow_schema::{DataType, Field, Schema};
use vstd::prelude::*;

verus! {

/// A column of a schema, as `arrow_schema` has it.
#[verifier::external_type_specification]
#[verifier::external_body]
pub struct ExField(arrow_schema::Field);

/// The type of a column, as `arrow_schema` has it.
#[verifier::external_type_specification]
#[verifier::external_body]
pub struct ExDataType(arrow_schema::DataType);

/// A list of columns with metadata, as `arrow_schema` has it.
#[verifier::external_type_specification]
#[verifier::external_body]
pub struct ExSchema(arrow_schema::Schema);

/// The kinds of column types that the library tells apart.
#[derive(Debug, Clone, Copy, PartialEq, Eq, Structural)]
pub enum FieldKind {
    Binary,
    LargeBinary,
    BinaryView,
    U64,
    Utf8,
    Other,
}

/// The name of a field.
pub uninterp spec fn field_name(field: Field) -> Seq<char>;

/// The type of a field.
pub uninterp spec fn field_type(field: Field) -> DataType;

/// The kind of a type.
pub uninterp spec fn type_kind(data_type: DataType) -> FieldKind;

/// Whether a field may hold nulls.
pub uninterp spec fn field_nullable(field: Field) -> bool;

/// The metadata of a field.
pub uninterp spec fn field_metadata(field: Field) -> Map<Seq<char>, Seq<char>>;

/// Metadata without entries.
pub open spec fn no_metadata() -> Map<Seq<char>, Seq<char>> {
    Map::empty()
}

/// The fields of a schema, in order.
pub uninterp spec fn schema_fields(schema: Schema) -> Seq<Field>;

/// The metadata of a schema.
pub uninterp spec fn schema_metadata(schema: Schema) -> Map<Seq<char>, Seq<char>>;

/// The fields of a shared schema, in order.
pub open spec fn shared_fields(schema: &Arc<Schema>) -> Seq<Field> {
    schema_fields(**schema)
}

/// The names of some fields.
pub open spec fn names_of(fields: Seq<Field>) -> Seq<Seq<char>> {
    Seq::new(fields.len(), |i: int| field_name(fields[i]))
}

/// The types of some fields.
pub open spec fn types_of(fields: Seq<Field>) -> Seq<DataType> {
    Seq::new(fields.len(), |i: int| field_type(fields[i]))
}

/// The kind of a field's type.
pub open spec fn field_kind(field: Field) -> FieldKind {
    type_kind(field_type(field))
}

/// `Field::name` returns the name of the field.
pub assume_specification[ Field::name ](field: &Field) -> (name: &String)
    ensures
        name@ == field_name(*field),
;

/// `Field::data_type` returns the type of the field; its kind is told by the variant.
#[verifier::external_body]
pub(crate) fn kind_of(field: &Field) -> (kind: FieldKind)
    ensures
        kind == type_kind(field_type(*field)),
{
    match field.data_type() {
        DataType::Binary => FieldKind::Binary,
        DataType::LargeBinary => FieldKind::LargeBinary,
        DataType::BinaryView => FieldKind::BinaryView,
        DataType::UInt64 => FieldKind::U64,
        DataType::Utf8 => FieldKind::Utf8,
        _ => FieldKind::Other,
    }
}

/// `Field::metadata` holds the metadata of the field; this looks up one key.
#[verifier::external_body]
pub(crate) fn metadata_value(field: &Field, key: &str) -> (value: Option<String>)
    ensures
        match value {
            Some(v) => field_metadata(*field).contains_pair(key@, v@),
            None => !field_metadata(*field).contains_key(key@),
        },
{
    field.metadata().get(key).cloned()
}

/// `Field::new` makes a field of a name, type and nullability; `Field::with_metadata` gives it
/// metadata. This makes one like `field` under another name.
#[verifier::external_body]
pub(crate) fn renamed_field(field: &Field, name: &str) -> (out: Field)
    ensures
        field_name(out) == name@,
        field_type(out) == field_type(*field),
        field_nullable(out) == field_nullable(*field),
        field_metadata(out) == field_metadata(*field),
{
    Field::new(name, field.data_type().clone(), field.is_nullable())
        .with_metadata(field.metadata().clone())
}

/// `Field::new` makes a field of a name, type and nullability; `Field::with_metadata` gives it
/// metadata. This makes one like `field` with one more entry of metadata.
#[verifier::external_body]
pub(crate) fn marked_field(field: &Field, key: &str, value: &str) -> (out: Field)
    ensures
        field_name(out) == field_name(*field),
        field_type(out) == field_type(*field),
        field_nullable(out) == field_nullable(*field),
        field_metadata(out) == field_metadata(*field).insert(key@, value@),
{
    let mut metadata = field.metadata().clone();
    metadata.insert(key.to_string(), value.to_string());
    Field::new(field.name(), field.data_type().clone(), field.is_nullable()).with_metadata(metadata)
}

/// `Field::new` makes a field of a name, type and nullability, without metadata. The type is that
/// of a kind.
#[verifier::external_body]
pub(crate) fn new_field(name: &str, kind: FieldKind, nullable: bool) -> (out: Field)
    requires
        kind != FieldKind::Other,
    ensures
        field_name(out) == name@,
        type_kind(field_type(out)) == kind,
        field_nullable(out) == nullable,
        field_metadata(out) == no_metadata(),
{
    let data_type = match kind {
        FieldKind::Binary => DataType::Binary,
        FieldKind::LargeBinary => DataType::LargeBinary,
        FieldKind::BinaryView => DataType::BinaryView,
        FieldKind::U64 => DataType::UInt64,
        FieldKind::Utf8 => DataType::Utf8,
        FieldKind::Other => DataType::Null,
    };
    Field::new(name, data_type, nullable)
}

/// `Field::clone` copies a field.
#[verifier::external_body]
pub(crate) fn copied_field(field: &Field) -> (out: Field)
    ensures
        out == *field,
{
    field.clone()
}

/// `Schema::fields` lists the fields of a schema.
#[verifier::external_body]
pub(crate) fn fields_of(schema: &Schema) -> (fields: Vec<Field>)
    ensures
        fields@ == schema_fields(*schema),
{
    schema.fields().iter().map(|field| field.as_ref().clone()).collect()
}

/// `Schema::new` makes a schema of fields, without metadata.
#[verifier::external_body]
pub(crate) fn schema_with(fields: Vec<Field>) -> (schema: Arc<Schema>)
    ensures
        schema_fields(*schema) == fields@,
        schema_metadata(*schema) == no_metadata(),
{
    Arc::new(Schema::new(fields))
}

/// `Schema::new_with_metadata` makes a schema of fields and metadata; the metadata is that of
/// another schema.
#[verifier::external_body]
pub(crate) fn schema_like(schema: &Schema, fields: Vec<Field>) -> (out: Arc<Schema>)
    ensures
        schema_fields(*out) == fields@,
        schema_metadata(*out) == schema_metadata(*schema),
{
    Arc::new(Schema::new_with_metadata(fields, schema.metadata().clone()))
}

} // verus!
