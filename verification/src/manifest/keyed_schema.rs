//! The schema of a keyed graph table.

use arrow_schema::{Field, Schema};
use vstd::prelude::*;

use crate::error::{self, OmniError};
use crate::text::{self, decimal_text, joined, same_text};

verus! {

/// An Arrow schema. What it holds is spoken of through the names below.
#[verifier::external_type_specification]
#[verifier::external_body]
pub struct ExArrowSchema(arrow_schema::Schema);

/// An Arrow field. What it holds is spoken of through the name below.
#[verifier::external_type_specification]
#[verifier::external_body]
pub struct ExArrowField(arrow_schema::Field);

/// A field over plain values. `data_type` stands for everything that neither
/// the name nor the nullability nor the metadata says.
pub struct FieldView {
    pub name: Seq<char>,
    pub data_type: int,
    pub nullable: bool,
    pub metadata: Map<Seq<char>, Seq<char>>,
}

/// What a field holds.
pub uninterp spec fn field_parts(field: Field) -> FieldView;

/// The fields of a schema, in order.
pub uninterp spec fn schema_parts(schema: Schema) -> Seq<FieldView>;

/// The metadata of the schema itself.
pub uninterp spec fn schema_metadata(schema: Schema) -> Map<Seq<char>, Seq<char>>;

/// The number of fields of an Arrow `Schema`.
#[verifier::external_body]
fn field_count(schema: &Schema) -> (r: usize)
    ensures
        r == schema_parts(*schema).len(),
{
    schema.fields().len()
}

/// A copy of a field (`Schema::field`).
#[verifier::external_body]
fn field_at(schema: &Schema, index: usize) -> (r: Field)
    requires
        index < schema_parts(*schema).len(),
    ensures
        field_parts(r) == schema_parts(*schema)[index as int],
{
    schema.field(index).clone()
}

/// `Field::name`.
#[verifier::external_body]
fn name_of(field: &Field) -> (r: &str)
    ensures
        r@ == field_parts(*field).name,
{
    field.name().as_str()
}

/// `Field::is_nullable`.
#[verifier::external_body]
fn is_nullable(field: &Field) -> (r: bool)
    ensures
        r == field_parts(*field).nullable,
{
    field.is_nullable()
}

/// The field with a metadata entry put in (`Field::metadata_mut`).
#[verifier::external_body]
fn with_entry(field: Field, key: &str, value: &str) -> (r: Field)
    ensures
        field_parts(r) == (FieldView {
            metadata: field_parts(field).metadata.insert(key@, value@),
            ..field_parts(field)
        }),
{
    let mut field = field;
    field.metadata_mut().insert(key.to_string(), value.to_string());
    field
}

/// The field without a metadata entry (`Field::metadata_mut`).
#[verifier::external_body]
fn without_entry(field: Field, key: &str) -> (r: Field)
    ensures
        field_parts(r) == (FieldView {
            metadata: field_parts(field).metadata.remove(key@),
            ..field_parts(field)
        }),
{
    let mut field = field;
    field.metadata_mut().remove(key);
    field
}

/// A schema of given fields with the metadata of another
/// (`Schema::new_with_metadata`).
#[verifier::external_body]
fn schema_of(fields: Vec<Field>, like: &Schema) -> (r: Schema)
    ensures
        schema_parts(r) == fields@.map_values(|field: Field| field_parts(field)),
        schema_metadata(r) == schema_metadata(*like),
{
    Schema::new_with_metadata(fields, like.metadata.clone())
}

/// The field metadata by which Lance knows an unenforced primary key.
pub const PRIMARY_KEY: &'static str = "lance-schema:unenforced-primary-key";

/// The field metadata by which Lance knows a field's place in a composite
/// primary key.
pub const PRIMARY_KEY_POSITION: &'static str = "lance-schema:unenforced-primary-key:position";

/// A field as a keyed table has it: the `id` is the primary key, and nothing
/// else is.
pub open spec fn keyed_field(field: FieldView) -> FieldView {
    let bare = field.metadata.remove(PRIMARY_KEY_POSITION@);
    FieldView {
        metadata: if field.name == "id"@ {
            bare.insert(PRIMARY_KEY@, "true"@)
        } else {
            bare.remove(PRIMARY_KEY@)
        },
        ..field
    }
}

/// The number of top-level `id` fields.
pub open spec fn id_count(fields: Seq<FieldView>) -> nat
    decreases fields.len(),
{
    if fields.len() == 0 {
        0
    } else {
        id_count(fields.drop_last()) + (if fields.last().name == "id"@ {
            1nat
        } else {
            0nat
        })
    }
}

/// Whether one of the fields is a nullable `id`.
pub open spec fn has_nullable_id(fields: Seq<FieldView>) -> bool {
    exists|i: int| 0 <= i < fields.len() && (#[trigger] fields[i]).name == "id"@ && fields[i].nullable
}

/// Whether a schema can be that of a keyed table.
pub open spec fn is_keyable(fields: Seq<FieldView>) -> bool {
    id_count(fields) == 1 && !has_nullable_id(fields)
}

/// Whether an error says why a schema cannot be that of a keyed table.
pub open spec fn is_unkeyable(fields: Seq<FieldView>, error: OmniError) -> bool {
    if id_count(fields) != 1 {
        error::is_plain_manifest(
            error,
            error::ManifestErrorKind::Internal,
            "graph table initialization requires exactly one top-level `id` field; found "@
                + text::decimal(id_count(fields)),
        )
    } else {
        has_nullable_id(fields) && error::is_plain_manifest(
            error,
            error::ManifestErrorKind::Internal,
            "graph table initialization requires a non-null `id` field"@,
        )
    }
}

/// Whether a schema is the keyed form of another.
pub open spec fn is_keyed_form(keyed: Schema, schema: Schema) -> bool {
    &&& schema_parts(keyed) == schema_parts(schema).map_values(
        |field: FieldView| keyed_field(field),
    )
    &&& schema_metadata(keyed) == schema_metadata(schema)
}

/// Makes the schema of a keyed graph table: the single top-level `id`, which
/// must not be nullable, becomes the unenforced primary key.
pub fn keyed_graph_table_schema(schema: &Schema) -> (r: Result<Schema, OmniError>)
    ensures
        match r {
            Ok(keyed) => is_keyable(schema_parts(*schema)) && is_keyed_form(keyed, *schema),
            Err(error) => is_unkeyable(schema_parts(*schema), error),
        },
{
    let ghost parts = schema_parts(*schema);
    let total: usize = field_count(schema);
    let mut fields: Vec<Field> = Vec::new();
    let mut ids: u64 = 0;
    let mut nullable_id = false;
    let mut i: usize = 0;
    proof {
        assert(parts.take(0) =~= Seq::empty());
    }
    while i < total
        invariant
            i <= total,
            parts == schema_parts(*schema),
            total == parts.len(),
            fields@.len() == i,
            ids == id_count(parts.take(i as int)),
            ids <= i,
            nullable_id <==> exists|k: int|
                0 <= k < i && (#[trigger] parts[k]).name == "id"@ && parts[k].nullable,
            forall|k: int| 0 <= k < i ==> field_parts(#[trigger] fields@[k]) == keyed_field(parts[k]),
        decreases total - i,
    {
        proof {
            assert(parts.take(i + 1).drop_last() =~= parts.take(i as int));
            assert(parts.take(i + 1).last() == parts[i as int]);
        }
        let field = without_entry(field_at(schema, i), PRIMARY_KEY_POSITION);
        let is_id = same_text(name_of(&field), "id");
        let field = if is_id {
            ids = ids + 1;
            if is_nullable(&field) {
                assert(parts[i as int].nullable);
                nullable_id = true;
            }
            with_entry(field, PRIMARY_KEY, "true")
        } else {
            without_entry(field, PRIMARY_KEY)
        };
        assert(field_parts(field) == keyed_field(parts[i as int]));
        fields.push(field);
        i = i + 1;
    }
    assert(parts.take(i as int) =~= parts);
    if ids != 1 {
        return Err(
            OmniError::manifest_internal(
                joined(
                    "graph table initialization requires exactly one top-level `id` field; found ",
                    decimal_text(ids).as_str(),
                ),
            ),
        );
    }
    if nullable_id {
        return Err(
            OmniError::manifest_internal(
                String::from_str("graph table initialization requires a non-null `id` field"),
            ),
        );
    }
    let ghost made = fields@;
    let keyed = schema_of(fields, schema);
    proof {
        assert(made.map_values(|field: Field| field_parts(field)) =~= parts.map_values(
            |field: FieldView| keyed_field(field),
        ));
    }
    Ok(keyed)
}

/// Exactly the `id` is marked as primary key, and nothing carries a place in a
/// composite key.
pub proof fn only_the_id_is_the_key(field: FieldView)
    ensures
        keyed_field(field).metadata.contains_key(PRIMARY_KEY@) <==> field.name == "id"@,
        field.name == "id"@ ==> keyed_field(field).metadata[PRIMARY_KEY@] == "true"@,
        !keyed_field(field).metadata.contains_key(PRIMARY_KEY_POSITION@),
{
    lemma_keys_differ();
}

proof fn lemma_keys_differ()
    ensures
        PRIMARY_KEY@ != PRIMARY_KEY_POSITION@,
{
    reveal_strlit("lance-schema:unenforced-primary-key");
    reveal_strlit("lance-schema:unenforced-primary-key:position");
    assert(PRIMARY_KEY@.len() != PRIMARY_KEY_POSITION@.len());
}

/// Everything but the key's own metadata stays as it was.
pub proof fn keying_changes_only_the_key_metadata(field: FieldView, key: Seq<char>)
    requires
        key != PRIMARY_KEY@,
        key != PRIMARY_KEY_POSITION@,
    ensures
        keyed_field(field).name == field.name,
        keyed_field(field).data_type == field.data_type,
        keyed_field(field).nullable == field.nullable,
        keyed_field(field).metadata.contains_key(key) == field.metadata.contains_key(key),
        field.metadata.contains_key(key) ==> keyed_field(field).metadata[key]
            == field.metadata[key],
{
}

/// A keyed schema stays as it is when it is keyed again.
pub proof fn keying_twice_is_keying_once(field: FieldView)
    ensures
        keyed_field(keyed_field(field)) == keyed_field(field),
{
    lemma_keys_differ();
    assert(keyed_field(keyed_field(field)).metadata =~= keyed_field(field).metadata);
}

/// The metadata by which Lance knows a key, spelled as Lance spells it.
pub proof fn keys_are_known_by_these_names()
    ensures
        PRIMARY_KEY@ == "lance-schema:unenforced-primary-key"@,
        PRIMARY_KEY_POSITION@ == "lance-schema:unenforced-primary-key:position"@,
{
}

proof fn lemma_id_count(fields: Seq<FieldView>)
    ensures
        id_count(fields) == fields.filter(|field: FieldView| field.name == "id"@).len(),
    decreases fields.len(),
{
    reveal(Seq::filter);
    if fields.len() > 0 {
        lemma_id_count(fields.drop_last());
    }
}

/// The `id` fields of a schema are counted one by one.
pub proof fn every_id_field_is_counted(fields: Seq<FieldView>, field: FieldView)
    ensures
        id_count(Seq::<FieldView>::empty()) == 0,
        id_count(fields.push(field)) == id_count(fields) + (if field.name == "id"@ {
            1int
        } else {
            0int
        }),
        id_count(fields) == fields.filter(|field: FieldView| field.name == "id"@).len(),
{
    lemma_id_count(fields);
    assert(fields.push(field).drop_last() =~= fields);
}

proof fn lemma_some_id(fields: Seq<FieldView>, i: int)
    requires
        0 <= i < fields.len(),
        fields[i].name == "id"@,
    ensures
        id_count(fields) >= 1,
        id_count(fields) == 1 ==> forall|j: int|
            0 <= j < fields.len() && j != i ==> (#[trigger] fields[j]).name != "id"@,
    decreases fields.len(),
{
    let rest = fields.drop_last();
    let last = fields.len() - 1;
    if i < last {
        assert(rest[i] == fields[i]);
        lemma_some_id(rest, i);
        assert forall|j: int|
            id_count(fields) == 1 && 0 <= j < fields.len() && j != i implies (
        #[trigger] fields[j]).name != "id"@ by {
            if j < last {
                assert(rest[j] == fields[j]);
            }
        }
    } else {
        assert forall|j: int|
            id_count(fields) == 1 && 0 <= j < fields.len() && j != i implies (
        #[trigger] fields[j]).name != "id"@ by {
            if fields[j].name == "id"@ {
                assert(rest[j] == fields[j]);
                lemma_some_id(rest, j);
            }
        }
    }
}

proof fn lemma_single_id(fields: Seq<FieldView>, i: int)
    requires
        0 <= i < fields.len(),
        fields[i].name == "id"@,
        forall|j: int| 0 <= j < fields.len() && j != i ==> (#[trigger] fields[j]).name != "id"@,
    ensures
        id_count(fields) == 1,
    decreases fields.len(),
{
    let rest = fields.drop_last();
    if i < fields.len() - 1 {
        assert(rest[i] == fields[i]);
        assert(fields[fields.len() - 1].name != "id"@);
        assert forall|j: int| 0 <= j < rest.len() && j != i implies (#[trigger] rest[j]).name
            != "id"@ by {
            assert(rest[j] == fields[j]);
        }
        lemma_single_id(rest, i);
    } else {
        if id_count(rest) > 0 {
            lemma_found_id(rest);
            let j = choose|j: int| 0 <= j < rest.len() && (#[trigger] rest[j]).name == "id"@;
            assert(fields[j].name == "id"@);
        }
    }
}

proof fn lemma_found_id(fields: Seq<FieldView>)
    requires
        id_count(fields) > 0,
    ensures
        exists|i: int| 0 <= i < fields.len() && (#[trigger] fields[i]).name == "id"@,
    decreases fields.len(),
{
    if fields.last().name == "id"@ {
        assert(fields[fields.len() - 1].name == "id"@);
    } else {
        lemma_found_id(fields.drop_last());
        let rest = fields.drop_last();
        let i = choose|i: int| 0 <= i < rest.len() && (#[trigger] rest[i]).name == "id"@;
        assert(fields[i].name == "id"@);
    }
}

/// A schema can be keyed exactly where one field is called `id`, no other is, and
/// it is not nullable.
pub proof fn a_key_is_one_field_that_is_never_null(fields: Seq<FieldView>)
    ensures
        is_keyable(fields) <==> exists|i: int|
            0 <= i < fields.len() && (#[trigger] fields[i]).name == "id"@ && !fields[i].nullable && (
            forall|j: int|
                0 <= j < fields.len() && j != i ==> (#[trigger] fields[j]).name != "id"@),
{
    if is_keyable(fields) {
        lemma_found_id(fields);
        let i = choose|i: int| 0 <= i < fields.len() && (#[trigger] fields[i]).name == "id"@;
        lemma_some_id(fields, i);
        assert(!fields[i].nullable);
    }
    if exists|i: int|
        0 <= i < fields.len() && (#[trigger] fields[i]).name == "id"@ && !fields[i].nullable && (
        forall|j: int| 0 <= j < fields.len() && j != i ==> (#[trigger] fields[j]).name != "id"@) {
        let i = choose|i: int|
            0 <= i < fields.len() && (#[trigger] fields[i]).name == "id"@ && !fields[i].nullable && (
            forall|j: int|
                0 <= j < fields.len() && j != i ==> (#[trigger] fields[j]).name != "id"@);
        lemma_single_id(fields, i);
    }
}

/// A schema that cannot be keyed is refused with the reason: the number of `id`
/// fields where it is not one, else that the field is nullable.
pub proof fn a_schema_without_a_key_is_refused_with_the_reason(
    fields: Seq<FieldView>,
    error: OmniError,
)
    requires
        is_unkeyable(fields, error),
    ensures
        !is_keyable(fields),
        error matches OmniError::Manifest(manifest) && manifest.kind
            == error::ManifestErrorKind::Internal && manifest.details is None && manifest.message@
            == (if id_count(fields) != 1 {
            "graph table initialization requires exactly one top-level `id` field; found "@
                + text::decimal(id_count(fields))
        } else {
            "graph table initialization requires a non-null `id` field"@
        }),
{
}

/// The keyed form of a schema has its fields, in its order, each keyed, and its
/// metadata.
pub proof fn a_keyed_form_has_every_field(keyed: Schema, schema: Schema, i: int)
    requires
        is_keyed_form(keyed, schema),
        0 <= i < schema_parts(schema).len(),
    ensures
        schema_parts(keyed).len() == schema_parts(schema).len(),
        schema_parts(keyed)[i] == keyed_field(schema_parts(schema)[i]),
        schema_metadata(keyed) == schema_metadata(schema),
{
}

} // verus!
