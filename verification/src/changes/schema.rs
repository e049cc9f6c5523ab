//! The user-visible schema of a table and its fingerprint.

use lance_core::datatypes::Schema;
use vstd::prelude::*;

use crate::changes::batch;
use crate::changes::field_types::{self, field_is_typed};
use crate::changes::model::{self, is_reserved_storage_system_column};
use crate::error::{LanceError, LanceErrorKind};
use crate::text::{self, same_text, same_text_option};

verus! {

/// The schema of a Lance dataset. What it holds is spoken of through the names
/// below.
#[verifier::external_type_specification]
#[verifier::external_body]
pub struct ExSchema(lance_core::datatypes::Schema);

/// The field ids that the schema gives, by column path.
pub uninterp spec fn schema_field_ids(schema: Schema) -> Map<Seq<char>, i32>;

/// The top-level fields in order: name, nullability and metadata.
pub uninterp spec fn schema_fields(schema: Schema) -> Seq<
    (Seq<char>, bool, Map<Seq<char>, Seq<char>>),
>;

/// For each top-level field the `Debug` text of its Arrow type, where that text is
/// fixed. It is not where a field nested in the type carries several metadata
/// entries, which are listed in the order in which a seeded hash map is walked.
pub uninterp spec fn schema_type_texts(schema: Schema) -> Seq<Option<Seq<char>>>;

/// `Schema::field_id`: the id of the field that a column path leads to. A path
/// that leads nowhere is answered with a schema error, whose text names a
/// source line of Lance and is left unsaid.
#[verifier::external_body]
pub(crate) fn field_id(schema: &Schema, column: &str) -> (r: Result<i32, LanceError>)
    ensures
        match r {
            Ok(id) => schema_field_ids(*schema).contains_key(column@) && id == schema_field_ids(
                *schema,
            )[column@],
            Err(error) => !schema_field_ids(*schema).contains_key(column@) && error.kind
                == LanceErrorKind::Schema && error.source is None,
        },
{
    schema.field_id(column).map_err(
        |error| LanceError { kind: LanceErrorKind::Schema, message: error.to_string(), source: None },
    )
}

/// The number of top-level fields of a Lance `Schema`.
#[verifier::external_body]
pub(crate) fn field_count(schema: &Schema) -> (r: usize)
    ensures
        r == schema_fields(*schema).len(),
        r == field_types::schema_trees(*schema).len(),
        r == schema_type_texts(*schema).len(),
{
    schema.fields.len()
}

/// The name of a top-level Lance `Field`.
#[verifier::external_body]
pub(crate) fn field_name(schema: &Schema, index: usize) -> (r: &str)
    requires
        index < schema_fields(*schema).len(),
    ensures
        r@ == schema_fields(*schema)[index as int].0,
{
    schema.fields[index].name.as_str()
}

/// Whether a top-level Lance `Field` is nullable.
#[verifier::external_body]
pub(crate) fn field_nullable(schema: &Schema, index: usize) -> (r: bool)
    requires
        index < schema_fields(*schema).len(),
    ensures
        r == schema_fields(*schema)[index as int].1,
{
    schema.fields[index].nullable
}

/// The metadata value under `key` of a top-level Lance `Field`.
#[verifier::external_body]
pub(crate) fn field_metadata(schema: &Schema, index: usize, key: &str) -> (r: Option<String>)
    requires
        index < schema_fields(*schema).len(),
    ensures
        r is Some <==> schema_fields(*schema)[index as int].2.contains_key(key@),
        r matches Some(value) ==> value@ == schema_fields(*schema)[index as int].2[key@],
{
    schema.fields[index].metadata.get(key).cloned()
}

/// `Field::is_blob` on a top-level Lance `Field`.
#[verifier::external_body]
pub(crate) fn field_is_blob(schema: &Schema, index: usize) -> (r: bool)
    requires
        index < schema_fields(*schema).len(),
    ensures
        r == batch::marks_blob(schema_fields(*schema)[index as int].2),
{
    schema.fields[index].is_blob()
}

/// The `Debug` text of a top-level Lance `Field`'s Arrow type
/// (`Field::data_type`), which a field without one does not have.
#[verifier::external_body]
pub(crate) fn field_type_text(schema: &Schema, index: usize) -> (r: String)
    requires
        index < field_types::schema_trees(*schema).len(),
        field_types::has_arrow_type(field_types::schema_trees(*schema)[index as int]),
    ensures
        schema_type_texts(*schema)[index as int] matches Some(text) ==> r@ == text,
{
    format!("{:?}", schema.fields[index].data_type())
}

/// One top-level field as the fingerprint reads it.
#[derive(Debug)]
pub struct SchemaField {
    pub name: String,
    pub shape: FieldShape,
}

/// What two versions of a field must share for their rows to be comparable.
#[derive(Debug)]
pub struct FieldShape {
    pub type_text: String,
    pub nullable: bool,
    pub property_id: Option<String>,
    pub blob: bool,
}

/// A field shape over plain values.
pub struct ShapeView {
    pub type_text: Seq<char>,
    pub nullable: bool,
    pub property_id: Option<Seq<char>>,
    pub blob: bool,
}

impl View for FieldShape {
    type V = ShapeView;

    open spec fn view(&self) -> ShapeView {
        ShapeView {
            type_text: self.type_text@,
            nullable: self.nullable,
            property_id: text::text_option(self.property_id),
            blob: self.blob,
        }
    }
}

impl View for SchemaField {
    type V = (Seq<char>, ShapeView);

    open spec fn view(&self) -> (Seq<char>, ShapeView) {
        (self.name@, self.shape@)
    }
}

fn clone_text_option(value: &Option<String>) -> (r: Option<String>)
    ensures
        text::text_option(r) == text::text_option(*value),
{
    match value {
        Some(text) => Some(text.clone()),
        None => None,
    }
}

impl FieldShape {
    fn duplicate(&self) -> (r: Self)
        ensures
            r@ == self@,
    {
        FieldShape {
            type_text: self.type_text.clone(),
            nullable: self.nullable,
            property_id: clone_text_option(&self.property_id),
            blob: self.blob,
        }
    }

    fn same_as(&self, other: &Self) -> (r: bool)
        ensures
            r == (self@ == other@),
    {
        same_text(self.type_text.as_str(), other.type_text.as_str()) && self.nullable
            == other.nullable && same_text_option(&self.property_id, &other.property_id)
            && self.blob == other.blob
    }
}

/// The fields of a list over plain values.
pub open spec fn field_views(fields: Seq<SchemaField>) -> Seq<(Seq<char>, ShapeView)> {
    fields.map_values(|field: SchemaField| field@)
}

/// The user-visible fields by name. Reserved storage columns are left out; of
/// several fields of one name the last counts.
pub open spec fn shapes_by_name(fields: Seq<(Seq<char>, ShapeView)>) -> Map<Seq<char>, ShapeView>
    decreases fields.len(),
{
    if fields.len() == 0 {
        Map::empty()
    } else {
        let before = shapes_by_name(fields.drop_last());
        if model::reserved_column(fields.last().0) {
            before
        } else {
            before.insert(fields.last().0, fields.last().1)
        }
    }
}

/// A name-keyed fingerprint of a table's user-visible schema.
#[derive(Debug)]
pub struct SchemaFingerprint {
    entries: Vec<SchemaField>,
}

/// The entries as a map.
pub open spec fn entry_map(entries: Seq<(Seq<char>, ShapeView)>) -> Map<Seq<char>, ShapeView> {
    Map::new(
        |name: Seq<char>| exists|i: int| 0 <= i < entries.len() && (#[trigger] entries[i]).0 == name,
        |name: Seq<char>|
            entries[choose|i: int| 0 <= i < entries.len() && (#[trigger] entries[i]).0 == name].1,
    )
}

spec fn distinct_names(entries: Seq<(Seq<char>, ShapeView)>) -> bool {
    forall|i: int, j: int|
        0 <= i < entries.len() && 0 <= j < entries.len() && (#[trigger] entries[i]).0 == (
        #[trigger] entries[j]).0 ==> i == j
}

impl View for SchemaFingerprint {
    type V = Map<Seq<char>, ShapeView>;

    closed spec fn view(&self) -> Map<Seq<char>, ShapeView> {
        entry_map(field_views(self.entries@))
    }
}

impl SchemaFingerprint {
    #[verifier::type_invariant]
    spec fn inv(self) -> bool {
        distinct_names(field_views(self.entries@))
    }

    /// Whether two fingerprints agree: the same names with the same shapes,
    /// whatever the order of the columns.
    pub fn same_as(&self, other: &Self) -> (r: bool)
        ensures
            r == (self@ == other@),
    {
        proof {
            use_type_invariant(self);
            use_type_invariant(other);
        }
        let left = covers(&self.entries, &other.entries);
        let right = covers(&other.entries, &self.entries);
        proof {
            let a = field_views(self.entries@);
            let b = field_views(other.entries@);
            lemma_entry_map(a);
            lemma_entry_map(b);
            if left && right {
                assert(entry_map(a) =~= entry_map(b)) by {
                    assert forall|name: Seq<char>| #[trigger] entry_map(a).contains_key(name) implies
                        entry_map(b).contains_key(name) && entry_map(a)[name] == entry_map(b)[name] by {
                        let i = choose|i: int| 0 <= i < a.len() && (#[trigger] a[i]).0 == name;
                        assert(b.contains(a[i]));
                        let j = choose|j: int| 0 <= j < b.len() && #[trigger] b[j] == a[i];
                        assert(b[j].0 == name);
                    }
                    assert forall|name: Seq<char>| #[trigger] entry_map(b).contains_key(name) implies
                        entry_map(a).contains_key(name) by {
                        let i = choose|i: int| 0 <= i < b.len() && (#[trigger] b[i]).0 == name;
                        assert(a.contains(b[i]));
                        let j = choose|j: int| 0 <= j < a.len() && #[trigger] a[j] == b[i];
                        assert(a[j].0 == name);
                    }
                }
            }
            if entry_map(a) == entry_map(b) {
                lemma_covered(a, b);
                lemma_covered(b, a);
            }
        }
        left && right
    }
}

proof fn lemma_entry_map(entries: Seq<(Seq<char>, ShapeView)>)
    requires
        distinct_names(entries),
    ensures
        forall|i: int|
            0 <= i < entries.len() ==> entry_map(entries).contains_key((#[trigger] entries[i]).0)
                && entry_map(entries)[entries[i].0] == entries[i].1,
{
    assert forall|i: int| 0 <= i < entries.len() implies entry_map(entries).contains_key(
        (#[trigger] entries[i]).0,
    ) && entry_map(entries)[entries[i].0] == entries[i].1 by {
        let name = entries[i].0;
        let j = choose|j: int| 0 <= j < entries.len() && (#[trigger] entries[j]).0 == name;
        assert(entries[j].0 == name);
        assert(i == j);
    }
}

spec fn covered(a: Seq<(Seq<char>, ShapeView)>, b: Seq<(Seq<char>, ShapeView)>) -> bool {
    forall|i: int| 0 <= i < a.len() ==> b.contains(#[trigger] a[i])
}

proof fn lemma_covered(a: Seq<(Seq<char>, ShapeView)>, b: Seq<(Seq<char>, ShapeView)>)
    requires
        distinct_names(a),
        distinct_names(b),
        entry_map(a) == entry_map(b),
    ensures
        covered(a, b),
{
    lemma_entry_map(a);
    lemma_entry_map(b);
    assert forall|i: int| 0 <= i < a.len() implies b.contains(#[trigger] a[i]) by {
        assert(entry_map(b).contains_key(a[i].0));
        let j = choose|j: int| 0 <= j < b.len() && (#[trigger] b[j]).0 == a[i].0;
        assert(b[j] == a[i]);
    }
}

fn covers(a: &Vec<SchemaField>, b: &Vec<SchemaField>) -> (r: bool)
    ensures
        r == covered(field_views(a@), field_views(b@)),
{
    let ghost av = field_views(a@);
    let ghost bv = field_views(b@);
    let mut i: usize = 0;
    while i < a.len()
        invariant
            i <= a.len(),
            av == field_views(a@),
            bv == field_views(b@),
            forall|k: int| 0 <= k < i ==> bv.contains(#[trigger] av[k]),
        decreases a.len() - i,
    {
        let mut j: usize = 0;
        let mut found = false;
        while j < b.len() && !found
            invariant
                i < a.len(),
                j <= b.len(),
                av == field_views(a@),
                bv == field_views(b@),
                found ==> bv.contains(av[i as int]),
                !found ==> forall|k: int| 0 <= k < j ==> #[trigger] bv[k] != av[i as int],
            decreases b.len() - j + (if found { 0int } else { 1int }),
        {
            if same_text(a[i].name.as_str(), b[j].name.as_str()) && a[i].shape.same_as(&b[j].shape) {
                assert(bv[j as int] == av[i as int]);
                found = true;
            } else {
                j = j + 1;
            }
        }
        if !found {
            assert(!bv.contains(av[i as int]));
            return false;
        }
        i = i + 1;
    }
    true
}

/// The fingerprint of a list of fields.
pub fn fingerprint(fields: &Vec<SchemaField>) -> (r: SchemaFingerprint)
    ensures
        r@ == shapes_by_name(field_views(fields@)),
{
    let ghost views = field_views(fields@);
    let mut entries: Vec<SchemaField> = Vec::new();
    let mut i: usize = 0;
    proof {
        assert(entry_map(field_views(entries@)) =~= Map::<Seq<char>, ShapeView>::empty());
    }
    while i < fields.len()
        invariant
            i <= fields.len(),
            views == field_views(fields@),
            distinct_names(field_views(entries@)),
            entry_map(field_views(entries@)) == shapes_by_name(views.take(i as int)),
        decreases fields.len() - i,
    {
        proof {
            assert(views.take(i + 1).drop_last() == views.take(i as int));
            assert(views.take(i + 1).last() == fields@[i as int]@);
        }
        if !is_reserved_storage_system_column(fields[i].name.as_str()) {
            put(&mut entries, &fields[i]);
        }
        i = i + 1;
    }
    assert(views.take(i as int) == views);
    SchemaFingerprint { entries }
}

fn put(entries: &mut Vec<SchemaField>, field: &SchemaField)
    requires
        distinct_names(field_views(old(entries)@)),
    ensures
        distinct_names(field_views(final(entries)@)),
        entry_map(field_views(final(entries)@)) == entry_map(field_views(old(entries)@)).insert(
            field.name@,
            field.shape@,
        ),
{
    let ghost before = field_views(entries@);
    let mut i: usize = 0;
    while i < entries.len() && !same_text(entries[i].name.as_str(), field.name.as_str())
        invariant
            i <= entries.len(),
            before == field_views(entries@),
            forall|k: int| 0 <= k < i ==> (#[trigger] before[k]).0 != field.name@,
        decreases entries.len() - i,
    {
        i = i + 1;
    }
    let fresh = SchemaField { name: field.name.clone(), shape: field.shape.duplicate() };
    if i < entries.len() {
        entries.set(i, fresh);
        proof {
            let after = field_views(entries@);
            assert(after =~= before.update(i as int, field@));
            lemma_replaced(before, i as int, field@);
        }
    } else {
        entries.push(fresh);
        proof {
            let after = field_views(entries@);
            assert(after =~= before.push(field@));
            lemma_appended(before, field@);
        }
    }
}

proof fn lemma_replaced(
    before: Seq<(Seq<char>, ShapeView)>,
    at: int,
    field: (Seq<char>, ShapeView),
)
    requires
        distinct_names(before),
        0 <= at < before.len(),
        before[at].0 == field.0,
    ensures
        distinct_names(before.update(at, field)),
        entry_map(before.update(at, field)) == entry_map(before).insert(field.0, field.1),
{
    let after = before.update(at, field);
    assert forall|i: int, j: int|
        0 <= i < after.len() && 0 <= j < after.len() && (#[trigger] after[i]).0 == (
        #[trigger] after[j]).0 implies i == j by {
        assert(before[i].0 == after[i].0);
        assert(before[j].0 == after[j].0);
    }
    lemma_entry_map(before);
    lemma_entry_map(after);
    let left = entry_map(after);
    let right = entry_map(before).insert(field.0, field.1);
    assert forall|name: Seq<char>| left.contains_key(name) <==> right.contains_key(name) by {
        if left.contains_key(name) {
            let i = choose|i: int| 0 <= i < after.len() && (#[trigger] after[i]).0 == name;
            assert(before[i].0 == name);
        }
        if right.contains_key(name) {
            if name == field.0 {
                assert(after[at].0 == name);
            } else {
                let i = choose|i: int| 0 <= i < before.len() && (#[trigger] before[i]).0 == name;
                assert(after[i].0 == name);
            }
        }
    }
    assert forall|name: Seq<char>| left.contains_key(name) implies left[name] == right[name] by {
        let i = choose|i: int| 0 <= i < after.len() && (#[trigger] after[i]).0 == name;
        assert(before[i].0 == name);
        if i == at {
            assert(after[at] == field);
        } else {
            assert(after[i] == before[i]);
            assert(before[at].0 == field.0);
        }
    }
    assert(left =~= right);
}

proof fn lemma_appended(before: Seq<(Seq<char>, ShapeView)>, field: (Seq<char>, ShapeView))
    requires
        distinct_names(before),
        forall|k: int| 0 <= k < before.len() ==> (#[trigger] before[k]).0 != field.0,
    ensures
        distinct_names(before.push(field)),
        entry_map(before.push(field)) == entry_map(before).insert(field.0, field.1),
{
    let after = before.push(field);
    assert forall|i: int, j: int|
        0 <= i < after.len() && 0 <= j < after.len() && (#[trigger] after[i]).0 == (
        #[trigger] after[j]).0 implies i == j by {
        if i < before.len() {
            assert(after[i] == before[i]);
        }
        if j < before.len() {
            assert(after[j] == before[j]);
        }
    }
    lemma_entry_map(before);
    lemma_entry_map(after);
    let left = entry_map(after);
    let right = entry_map(before).insert(field.0, field.1);
    assert forall|name: Seq<char>| left.contains_key(name) <==> right.contains_key(name) by {
        if left.contains_key(name) {
            let i = choose|i: int| 0 <= i < after.len() && (#[trigger] after[i]).0 == name;
            if i < before.len() {
                assert(before[i].0 == name);
            }
        }
        if right.contains_key(name) {
            if name == field.0 {
                assert(after[before.len() as int].0 == name);
            } else {
                let i = choose|i: int| 0 <= i < before.len() && (#[trigger] before[i]).0 == name;
                assert(after[i].0 == name);
            }
        }
    }
    assert forall|name: Seq<char>| left.contains_key(name) implies left[name] == right[name] by {
        let i = choose|i: int| 0 <= i < after.len() && (#[trigger] after[i]).0 == name;
        if i < before.len() {
            assert(after[i] == before[i]);
            assert(before[i].0 != field.0);
        } else {
            assert(after[i] == field);
        }
    }
    assert(left =~= right);
}

/// The fields of a schema as the fingerprint reads them, with their type texts.
pub open spec fn fields_read(
    fields: Seq<(Seq<char>, bool, Map<Seq<char>, Seq<char>>)>,
    type_texts: Seq<Seq<char>>,
    property_key: Seq<char>,
) -> Seq<(Seq<char>, ShapeView)> {
    Seq::new(
        fields.len(),
        |i: int|
            (
                fields[i].0,
                ShapeView {
                    type_text: type_texts[i],
                    nullable: fields[i].1,
                    property_id: if fields[i].2.contains_key(property_key) {
                        Some(fields[i].2[property_key])
                    } else {
                        None
                    },
                    blob: batch::marks_blob(fields[i].2),
                },
            ),
    )
}

/// Whether every user-visible field of a schema has an Arrow type.
pub open spec fn is_typed_schema(schema: Schema) -> bool {
    forall|i: int|
        0 <= i < schema_fields(schema).len() && !model::reserved_column(
            (#[trigger] schema_fields(schema)[i]).0,
        ) ==> field_types::has_arrow_type(field_types::schema_trees(schema)[i])
}

/// Whether type texts are those of the user-visible fields of a schema, wherever
/// the text is fixed.
pub open spec fn are_type_texts(schema: Schema, type_texts: Seq<Seq<char>>) -> bool {
    &&& type_texts.len() == schema_fields(schema).len()
    &&& forall|i: int|
        0 <= i < type_texts.len() && !model::reserved_column(schema_fields(schema)[i].0) ==> (
        schema_type_texts(schema)[i] matches Some(text) ==> #[trigger] type_texts[i] == text)
}

/// Whether a fingerprint is that of a schema: per user-visible field its Arrow
/// type, its nullability, its stable property identity (the metadata value under
/// `property_key`) and whether it is a Blob.
pub open spec fn is_fingerprint(
    shapes: Map<Seq<char>, ShapeView>,
    schema: Schema,
    property_key: Seq<char>,
) -> bool {
    exists|type_texts: Seq<Seq<char>>| #[trigger]
        are_type_texts(schema, type_texts) && shapes == shapes_by_name(
            fields_read(schema_fields(schema), type_texts, property_key),
        )
}

/// Fingerprints a table's user-visible schema.
pub fn user_schema_fingerprint(schema: &Schema, property_key: &str) -> (r: SchemaFingerprint)
    requires
        is_typed_schema(*schema),
    ensures
        is_fingerprint(r@, *schema, property_key@),
{
    let total: usize = field_count(schema);
    let ghost mut type_texts: Seq<Seq<char>> = Seq::empty();
    let mut fields: Vec<SchemaField> = Vec::new();
    let mut i: usize = 0;
    while i < total
        invariant
            i <= total,
            total == schema_fields(*schema).len(),
            total == field_types::schema_trees(*schema).len(),
            is_typed_schema(*schema),
            fields@.len() == i,
            type_texts.len() == i,
            forall|k: int|
                0 <= k < i && !model::reserved_column(schema_fields(*schema)[k].0) ==> (
                schema_type_texts(*schema)[k] matches Some(text) ==> #[trigger] type_texts[k]
                    == text),
            forall|k: int|
                0 <= k < i ==> #[trigger] field_views(fields@)[k] == fields_read(
                    schema_fields(*schema),
                    type_texts,
                    property_key@,
                )[k],
        decreases total - i,
    {
        let name = field_name(schema, i);
        let type_text = if is_reserved_storage_system_column(name) {
            String::new()
        } else {
            field_type_text(schema, i)
        };
        proof {
            type_texts = type_texts.push(type_text@);
        }
        let ghost read_before = field_views(fields@);
        let field = SchemaField {
            name: String::from_str(name),
            shape: FieldShape {
                type_text,
                nullable: field_nullable(schema, i),
                property_id: field_metadata(schema, i, property_key),
                blob: field_is_blob(schema, i),
            },
        };
        fields.push(field);
        proof {
            assert(field_views(fields@) =~= read_before.push(field@));
        }
        i = i + 1;
    }
    proof {
        assert(field_views(fields@) =~= fields_read(
            schema_fields(*schema),
            type_texts,
            property_key@,
        ));
        assert(are_type_texts(*schema, type_texts));
    }
    fingerprint(&fields)
}

/// Fingerprints a table's user-visible schema, unless one of its fields has no
/// Arrow type.
pub fn checked_schema_fingerprint(schema: &Schema, property_key: &str) -> (r: Option<
    SchemaFingerprint,
>)
    ensures
        r is Some <==> is_typed_schema(*schema),
        r matches Some(shapes) ==> is_fingerprint(shapes@, *schema, property_key@),
{
    let total: usize = field_count(schema);
    let mut i: usize = 0;
    while i < total
        invariant
            i <= total,
            total == schema_fields(*schema).len(),
            total == field_types::schema_trees(*schema).len(),
            forall|k: int|
                0 <= k < i && !model::reserved_column((#[trigger] schema_fields(*schema)[k]).0)
                    ==> field_types::has_arrow_type(field_types::schema_trees(*schema)[k]),
        decreases total - i,
    {
        if !is_reserved_storage_system_column(field_name(schema, i)) && !field_is_typed(schema, i) {
            assert(!model::reserved_column(schema_fields(*schema)[i as int].0));
            return None;
        }
        i = i + 1;
    }
    Some(user_schema_fingerprint(schema, property_key))
}

/// A schema whose user-visible fields all have a fixed type text has one
/// fingerprint: every way to read it gives the same.
pub proof fn a_schema_has_one_fingerprint(
    a: Map<Seq<char>, ShapeView>,
    b: Map<Seq<char>, ShapeView>,
    schema: Schema,
    property_key: Seq<char>,
)
    requires
        is_fingerprint(a, schema, property_key),
        is_fingerprint(b, schema, property_key),
        forall|i: int|
            0 <= i < schema_fields(schema).len() && !model::reserved_column(
                (#[trigger] schema_fields(schema)[i]).0,
            ) ==> schema_type_texts(schema)[i] is Some,
    ensures
        a == b,
{
    let left = choose|type_texts: Seq<Seq<char>>| #[trigger]
        are_type_texts(schema, type_texts) && a == shapes_by_name(
            fields_read(schema_fields(schema), type_texts, property_key),
        );
    let right = choose|type_texts: Seq<Seq<char>>| #[trigger]
        are_type_texts(schema, type_texts) && b == shapes_by_name(
            fields_read(schema_fields(schema), type_texts, property_key),
        );
    let x = fields_read(schema_fields(schema), left, property_key);
    let y = fields_read(schema_fields(schema), right, property_key);
    assert forall|i: int| 0 <= i < x.len() && !model::reserved_column((#[trigger] x[i]).0) implies x[i]
        == y[i] by {
        assert(x[i].0 == schema_fields(schema)[i].0);
        assert(schema_type_texts(schema)[i] is Some);
        assert(left[i] == right[i]);
    }
    lemma_same_shapes(x, y);
}

proof fn lemma_same_shapes(x: Seq<(Seq<char>, ShapeView)>, y: Seq<(Seq<char>, ShapeView)>)
    requires
        x.len() == y.len(),
        forall|i: int| 0 <= i < x.len() ==> (#[trigger] x[i]).0 == y[i].0,
        forall|i: int|
            0 <= i < x.len() && !model::reserved_column((#[trigger] x[i]).0) ==> x[i] == y[i],
    ensures
        shapes_by_name(x) == shapes_by_name(y),
    decreases x.len(),
{
    if x.len() > 0 {
        assert(x[x.len() - 1].0 == y[x.len() - 1].0);
        lemma_same_shapes(x.drop_last(), y.drop_last());
    }
}

/// Whether every field name that is not reserved is used once.
pub open spec fn distinct_fields(fields: Seq<(Seq<char>, ShapeView)>) -> bool {
    forall|i: int, j: int|
        0 <= i < fields.len() && 0 <= j < fields.len() && !model::reserved_column(
            (#[trigger] fields[i]).0,
        ) && fields[i].0 == (#[trigger] fields[j]).0 ==> i == j
}

proof fn lemma_shapes_by_name(fields: Seq<(Seq<char>, ShapeView)>)
    requires
        distinct_fields(fields),
    ensures
        forall|name: Seq<char>| #[trigger]
            shapes_by_name(fields).contains_key(name) ==> !model::reserved_column(
                name,
            ) && fields.contains((name, shapes_by_name(fields)[name])),
        forall|i: int|
            0 <= i < fields.len() && !model::reserved_column(
                (#[trigger] fields[i]).0,
            ) ==> shapes_by_name(fields).contains_key(fields[i].0)
                && shapes_by_name(fields)[fields[i].0] == fields[i].1,
    decreases fields.len(),
{
    if fields.len() > 0 {
        let rest = fields.drop_last();
        lemma_shapes_by_name(rest);
        assert forall|name: Seq<char>| #[trigger]
            shapes_by_name(fields).contains_key(name) implies !model::reserved_column(
            name,
        ) && fields.contains((name, shapes_by_name(fields)[name])) by {
            if !model::reserved_column(fields.last().0) && name == fields.last().0 {
                assert(fields[fields.len() - 1] == (name, shapes_by_name(fields)[name]));
            } else {
                assert(shapes_by_name(rest).contains_key(name));
                let k = choose|k: int|
                    0 <= k < rest.len() && rest[k] == (name, shapes_by_name(rest)[name]);
                assert(fields[k] == rest[k]);
            }
        }
        assert forall|i: int|
            0 <= i < fields.len() && !model::reserved_column(
                (#[trigger] fields[i]).0,
            ) implies shapes_by_name(fields).contains_key(fields[i].0)
            && shapes_by_name(fields)[fields[i].0] == fields[i].1 by {
            if i < rest.len() {
                assert(rest[i] == fields[i]);
                assert(fields[fields.len() - 1].0 != fields[i].0);
            }
        }
    }
}

/// A reorder of the columns is no schema boundary: two schemas with the same
/// user-visible fields, each name used once, have the same fingerprint.
pub proof fn column_order_is_no_boundary(
    a: Seq<(Seq<char>, ShapeView)>,
    b: Seq<(Seq<char>, ShapeView)>,
)
    requires
        distinct_fields(a),
        distinct_fields(b),
        forall|field: (Seq<char>, ShapeView)|
            !model::reserved_column(field.0) ==> (#[trigger] a.contains(field) <==> b.contains(
                field,
            )),
    ensures
        shapes_by_name(a) == shapes_by_name(b),
{
    lemma_shapes_by_name(a);
    lemma_shapes_by_name(b);
    let left = shapes_by_name(a);
    let right = shapes_by_name(b);
    assert forall|name: Seq<char>| #[trigger] left.contains_key(name) implies right.contains_key(name)
        && left[name] == right[name] by {
        assert(a.contains((name, left[name])));
        assert(b.contains((name, left[name])));
        let k = choose|k: int| 0 <= k < b.len() && b[k] == (name, left[name]);
        assert(b[k].0 == name);
    }
    assert forall|name: Seq<char>| #[trigger] right.contains_key(name) implies left.contains_key(
        name,
    ) by {
        assert(a.contains((name, right[name])));
        let k = choose|k: int| 0 <= k < a.len() && a[k] == (name, right[name]);
        assert(a[k].0 == name);
    }
    assert(left =~= right);
}

/// The reserved storage columns are no part of the fingerprint.
pub proof fn reserved_columns_are_no_part(fields: Seq<(Seq<char>, ShapeView)>)
    ensures
        shapes_by_name(fields) == shapes_by_name(
            fields.filter(|field: (Seq<char>, ShapeView)| !model::reserved_column(field.0)),
        ),
    decreases fields.len(),
{
    reveal(Seq::filter);
    let kept = |field: (Seq<char>, ShapeView)| !model::reserved_column(field.0);
    if fields.len() > 0 {
        reserved_columns_are_no_part(fields.drop_last());
        let rest = fields.drop_last().filter(kept);
        if kept(fields.last()) {
            assert(rest.push(fields.last()).drop_last() =~= rest);
        }
    }
}

/// A shape is read whole: two shapes agree exactly where their type texts, their
/// nullability, their property ids and their Blob marks do.
pub proof fn shapes_agree_in_every_part(a: FieldShape, b: FieldShape)
    ensures
        a@ == b@ <==> a.type_text@ == b.type_text@ && a.nullable == b.nullable && a.blob == b.blob
            && ((a.property_id is None && b.property_id is None) || (a.property_id is Some
            && b.property_id is Some && a.property_id->0@ == b.property_id->0@)),
        a@.type_text == a.type_text@,
        a@.nullable == a.nullable,
        a@.blob == a.blob,
        a@.property_id is Some <==> a.property_id is Some,
        a.property_id matches Some(id) ==> a@.property_id == Some(id@),
{
    text::an_absent_text_is_no_text(a.property_id, b.property_id);
}

/// Every field of a list is read under its own name and with its own shape.
pub proof fn fields_are_read_one_by_one(fields: Seq<SchemaField>, i: int)
    requires
        0 <= i < fields.len(),
    ensures
        field_views(fields).len() == fields.len(),
        field_views(fields)[i].0 == fields[i].name@,
        field_views(fields)[i].1 == fields[i].shape@,
{
}

/// The fingerprint of a list of fields has an entry for every name that is none
/// of the five reserved ones, and no other; of several fields of one name the
/// last counts.
pub proof fn the_last_field_of_a_name_counts(fields: Seq<(Seq<char>, ShapeView)>, name: Seq<char>)
    ensures
        shapes_by_name(fields).contains_key(name) <==> name != "_rowid"@
            && name != "_rowaddr"@
            && name != "_rowoffset"@
            && name != "_row_created_at_version"@
            && name != "_row_last_updated_at_version"@ && exists|i: int|
            0 <= i < fields.len() && (#[trigger] fields[i]).0 == name,
        shapes_by_name(fields).contains_key(name) ==> exists|i: int|
            0 <= i < fields.len() && #[trigger] fields[i] == (name, shapes_by_name(fields)[name]) && (
            forall|j: int| i < j < fields.len() ==> (#[trigger] fields[j]).0 != name),
    decreases fields.len(),
{
    model::five_names_are_reserved(name);
    if fields.len() > 0 {
        let rest = fields.drop_last();
        let last = fields.len() - 1;
        the_last_field_of_a_name_counts(rest, name);
        if fields.last().0 == name {
            assert(fields[last].0 == name);
            if !model::reserved_column(name) {
                assert(fields[last] == (name, shapes_by_name(fields)[name]));
            }
        } else {
            if exists|i: int| 0 <= i < fields.len() && (#[trigger] fields[i]).0 == name {
                let i = choose|i: int| 0 <= i < fields.len() && (#[trigger] fields[i]).0 == name;
                assert(rest[i].0 == name);
            }
            if exists|i: int| 0 <= i < rest.len() && (#[trigger] rest[i]).0 == name {
                let i = choose|i: int| 0 <= i < rest.len() && (#[trigger] rest[i]).0 == name;
                assert(fields[i].0 == name);
            }
            if shapes_by_name(fields).contains_key(name) {
                assert(shapes_by_name(rest).contains_key(name));
                assert(shapes_by_name(rest)[name] == shapes_by_name(fields)[name]);
                let i = choose|i: int|
                    0 <= i < rest.len() && #[trigger] rest[i] == (name, shapes_by_name(rest)[name])
                        && (forall|j: int| i < j < rest.len() ==> (#[trigger] rest[j]).0 != name);
                assert(fields[i] == (name, shapes_by_name(fields)[name]));
                assert forall|j: int| i < j < fields.len() implies (#[trigger] fields[j]).0 != name by {
                    if j < last {
                        assert(rest[j].0 != name);
                    }
                }
            }
        }
    }
}

/// Every user-visible field of a schema has its entry: where no field behind it
/// has its name, the fingerprint has, under that name, the field's own Arrow type
/// where its text is fixed, its nullability, its property id and its Blob mark.
pub proof fn every_user_field_has_its_entry(
    shapes: Map<Seq<char>, ShapeView>,
    schema: Schema,
    property_key: Seq<char>,
    i: int,
)
    requires
        is_fingerprint(shapes, schema, property_key),
        0 <= i < schema_fields(schema).len(),
        schema_fields(schema)[i].0 != "_rowid"@
            && schema_fields(schema)[i].0 != "_rowaddr"@
            && schema_fields(schema)[i].0 != "_rowoffset"@
            && schema_fields(schema)[i].0 != "_row_created_at_version"@
            && schema_fields(schema)[i].0 != "_row_last_updated_at_version"@,
        forall|j: int|
            i < j < schema_fields(schema).len() ==> (#[trigger] schema_fields(schema)[j]).0
                != schema_fields(schema)[i].0,
    ensures
        shapes.contains_key(schema_fields(schema)[i].0),
        schema_type_texts(schema)[i] matches Some(text) ==> shapes[schema_fields(
            schema,
        )[i].0].type_text == text,
        shapes[schema_fields(schema)[i].0].nullable == schema_fields(schema)[i].1,
        shapes[schema_fields(schema)[i].0].property_id is Some <==> schema_fields(
            schema,
        )[i].2.contains_key(property_key),
        shapes[schema_fields(schema)[i].0].property_id matches Some(id) ==> id == schema_fields(
            schema,
        )[i].2[property_key],
        shapes[schema_fields(schema)[i].0].blob <==> batch::marks_blob(schema_fields(schema)[i].2),
{
    let fields = schema_fields(schema);
    let name = fields[i].0;
    let type_texts = choose|type_texts: Seq<Seq<char>>| #[trigger]
        are_type_texts(schema, type_texts) && shapes == shapes_by_name(
            fields_read(fields, type_texts, property_key),
        );
    let read = fields_read(fields, type_texts, property_key);
    model::five_names_are_reserved(name);
    the_last_field_of_a_name_counts(read, name);
    assert(read[i].0 == name);
    assert(shapes.contains_key(name));
    let k = choose|k: int|
        0 <= k < read.len() && #[trigger] read[k] == (name, shapes[name]) && (forall|j: int|
            k < j < read.len() ==> (#[trigger] read[j]).0 != name);
    assert(fields[k].0 == name);
    assert(k == i) by {
        if k < i {
            assert(read[i].0 != name);
        }
    }
    assert(type_texts[i] == type_texts[i]);
}

/// A fingerprint has no entry but those of user-visible fields.
pub proof fn every_entry_is_that_of_a_user_field(
    shapes: Map<Seq<char>, ShapeView>,
    schema: Schema,
    property_key: Seq<char>,
    name: Seq<char>,
)
    requires
        is_fingerprint(shapes, schema, property_key),
        shapes.contains_key(name),
    ensures
        name != "_rowid"@
            && name != "_rowaddr"@
            && name != "_rowoffset"@
            && name != "_row_created_at_version"@
            && name != "_row_last_updated_at_version"@,
        exists|i: int|
            0 <= i < schema_fields(schema).len() && (#[trigger] schema_fields(schema)[i]).0 == name,
{
    let fields = schema_fields(schema);
    let type_texts = choose|type_texts: Seq<Seq<char>>| #[trigger]
        are_type_texts(schema, type_texts) && shapes == shapes_by_name(
            fields_read(fields, type_texts, property_key),
        );
    let read = fields_read(fields, type_texts, property_key);
    the_last_field_of_a_name_counts(read, name);
    let k = choose|k: int| 0 <= k < read.len() && (#[trigger] read[k]).0 == name;
    assert(fields[k].0 == name);
}

/// A changed field is a boundary: where two schemas have a user-visible field of
/// one name, the last of that name in each, that differs in its type text, in its
/// nullability, in its property id or in its Blob mark, no fingerprint of the one
/// is one of the other; nor is it where only one of them has a field of a name.
pub proof fn a_changed_field_is_a_boundary(
    a: Map<Seq<char>, ShapeView>,
    b: Map<Seq<char>, ShapeView>,
    left: Schema,
    right: Schema,
    property_key: Seq<char>,
    i: int,
    j: int,
)
    requires
        is_fingerprint(a, left, property_key),
        is_fingerprint(b, right, property_key),
        0 <= i < schema_fields(left).len(),
        schema_fields(left)[i].0 != "_rowid"@
            && schema_fields(left)[i].0 != "_rowaddr"@
            && schema_fields(left)[i].0 != "_rowoffset"@
            && schema_fields(left)[i].0 != "_row_created_at_version"@
            && schema_fields(left)[i].0 != "_row_last_updated_at_version"@,
        forall|k: int|
            i < k < schema_fields(left).len() ==> (#[trigger] schema_fields(left)[k]).0
                != schema_fields(left)[i].0,
        forall|k: int|
            j < k < schema_fields(right).len() ==> (#[trigger] schema_fields(right)[k]).0
                != schema_fields(left)[i].0,
    ensures
        (forall|k: int|
            0 <= k < schema_fields(right).len() ==> (#[trigger] schema_fields(right)[k]).0
                != schema_fields(left)[i].0) ==> a != b,
        0 <= j < schema_fields(right).len() && schema_fields(right)[j].0 == schema_fields(left)[i].0
            && (schema_type_texts(left)[i] is Some && schema_type_texts(right)[j] is Some
            && schema_type_texts(left)[i] != schema_type_texts(right)[j] || schema_fields(left)[i].1
            != schema_fields(right)[j].1 || schema_fields(left)[i].2.contains_key(property_key)
            != schema_fields(right)[j].2.contains_key(property_key) || (schema_fields(
            left,
        )[i].2.contains_key(property_key) && schema_fields(left)[i].2[property_key]
            != schema_fields(right)[j].2[property_key]) || batch::marks_blob(
            schema_fields(left)[i].2,
        ) != batch::marks_blob(schema_fields(right)[j].2)) ==> a != b,
{
    let name = schema_fields(left)[i].0;
    every_user_field_has_its_entry(a, left, property_key, i);
    if 0 <= j < schema_fields(right).len() && schema_fields(right)[j].0 == name {
        every_user_field_has_its_entry(b, right, property_key, j);
    }
    if b.contains_key(name) {
        every_entry_is_that_of_a_user_field(b, right, property_key, name);
    }
}

/// A schema can be fingerprinted exactly where each of its user-visible fields
/// has an Arrow type; a reserved column may lack one.
pub proof fn only_user_fields_need_a_type(schema: Schema)
    ensures
        is_typed_schema(schema) <==> forall|i: int|
            #![trigger schema_fields(schema)[i]]
            0 <= i < schema_fields(schema).len() && schema_fields(schema)[i].0 != "_rowid"@
            && schema_fields(schema)[i].0 != "_rowaddr"@
            && schema_fields(schema)[i].0 != "_rowoffset"@
            && schema_fields(schema)[i].0 != "_row_created_at_version"@
            && schema_fields(schema)[i].0 != "_row_last_updated_at_version"@
                ==> field_types::has_arrow_type(field_types::schema_trees(schema)[i]),
{
    assert forall|i: int| 0 <= i < schema_fields(schema).len() implies (model::reserved_column(
        (#[trigger] schema_fields(schema)[i]).0,
    ) <==> !(schema_fields(schema)[i].0 != "_rowid"@
            && schema_fields(schema)[i].0 != "_rowaddr"@
            && schema_fields(schema)[i].0 != "_rowoffset"@
            && schema_fields(schema)[i].0 != "_row_created_at_version"@
            && schema_fields(schema)[i].0 != "_row_last_updated_at_version"@)) by {
        model::five_names_are_reserved(schema_fields(schema)[i].0);
    }
}

} // verus!
