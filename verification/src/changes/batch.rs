//! What the library reads of an Arrow record batch.

use arrow_array::Array;
use arrow_schema::ArrowError;
use vstd::prelude::*;

use crate::error::{self, LanceError, LanceErrorKind};

verus! {

/// A scanned Arrow record batch. What it holds is spoken of through the names
/// below.
#[verifier::external_body]
#[derive(Debug)]
pub struct Batch {
    pub records: arrow_array::RecordBatch,
}

/// The columns of a batch in schema order: the name, and for each row a number
/// that stands for the row's typed value, validity included. Two one-row
/// columns have the same number exactly when Arrow's `ArrayData` equality holds
/// between them.
pub uninterp spec fn batch_columns(batch: Batch) -> Seq<(Seq<char>, Seq<int>)>;

/// The number of rows.
pub uninterp spec fn batch_rows(batch: Batch) -> nat;

/// The metadata of each field, in schema order.
pub uninterp spec fn batch_metadata(batch: Batch) -> Seq<Map<Seq<char>, Seq<char>>>;

/// The metadata of the schema itself.
pub uninterp spec fn batch_schema_metadata(batch: Batch) -> Map<Seq<char>, Seq<char>>;

/// For each column whether it is a struct array, in schema order.
pub uninterp spec fn batch_structs(batch: Batch) -> Seq<bool>;

/// For each field what Lance's field conversion reports against it: nothing, or
/// the variant of the error.
pub uninterp spec fn batch_refusals(batch: Batch) -> Seq<Option<LanceErrorKind>>;

/// Whether Arrow accepts the columns of a batch under the fields of its schema
/// (`RecordBatch::try_new`); where it does not, the text of its refusal, unless
/// that text spells out a nested type whose metadata come in no fixed order.
pub uninterp spec fn batch_rebuilt(batch: Batch) -> Result<(), Option<Seq<char>>>;

/// The slots of the columns that hold UTF-8 strings, by the name under which
/// the batch finds the column.
pub uninterp spec fn batch_texts(batch: Batch) -> Map<Seq<char>, Seq<Seq<char>>>;

/// The slots of the columns that hold unsigned 64-bit integers, by the name
/// under which the batch finds the column.
pub uninterp spec fn batch_numbers(batch: Batch) -> Map<Seq<char>, Seq<u64>>;

/// A batch over plain values.
#[verifier::ext_equal]
pub struct BatchView {
    pub columns: Seq<(Seq<char>, Seq<int>)>,
    pub rows: nat,
    pub metadata: Seq<Map<Seq<char>, Seq<char>>>,
    pub schema_metadata: Map<Seq<char>, Seq<char>>,
    pub structs: Seq<bool>,
    pub refusals: Seq<Option<LanceErrorKind>>,
    pub texts: Map<Seq<char>, Seq<Seq<char>>>,
    pub numbers: Map<Seq<char>, Seq<u64>>,
}

/// What a batch holds.
pub open spec fn batch_view(batch: Batch) -> BatchView {
    BatchView {
        columns: batch_columns(batch),
        rows: batch_rows(batch),
        metadata: batch_metadata(batch),
        schema_metadata: batch_schema_metadata(batch),
        structs: batch_structs(batch),
        refusals: batch_refusals(batch),
        texts: batch_texts(batch),
        numbers: batch_numbers(batch),
    }
}

/// One row of a batch as a batch of its own: the same fields and the same
/// metadata, and of every column that row's slot alone.
pub open spec fn one_row(batch: BatchView, row: int) -> BatchView {
    BatchView {
        columns: batch.columns.map_values(
            |column: (Seq<char>, Seq<int>)| (column.0, seq![column.1[row]]),
        ),
        rows: 1,
        texts: batch.texts.map_values(|slots: Seq<Seq<char>>| seq![slots[row]]),
        numbers: batch.numbers.map_values(|slots: Seq<u64>| seq![slots[row]]),
        ..batch
    }
}

/// Whether `slice` is the one-row slice of `batch` at `row`.
pub open spec fn is_row_slice(batch: Batch, row: int, slice: Batch) -> bool {
    batch_view(slice) == one_row(batch_view(batch), row)
}

impl Clone for Batch {
    /// `RecordBatch::clone`: the clone holds what the batch holds.
    #[verifier::external_body]
    fn clone(&self) -> (r: Self)
        ensures
            r == *self,
    {
        Batch { records: self.records.clone() }
    }
}

/// `RecordBatch::num_columns`.
#[verifier::external_body]
pub(crate) fn column_count(batch: &Batch) -> (r: usize)
    ensures
        r == batch_columns(*batch).len(),
        r == batch_metadata(*batch).len(),
        r == batch_structs(*batch).len(),
        r == batch_refusals(*batch).len(),
{
    batch.records.num_columns()
}

/// `RecordBatch::num_rows`.
#[verifier::external_body]
pub(crate) fn row_count(batch: &Batch) -> (r: usize)
    ensures
        r == batch_rows(*batch),
{
    batch.records.num_rows()
}

/// The name of a field of the batch's schema.
#[verifier::external_body]
pub(crate) fn column_name(batch: &Batch, index: usize) -> (r: &str)
    requires
        index < batch_columns(*batch).len(),
    ensures
        r@ == batch_columns(*batch)[index as int].0,
{
    batch.records.schema_ref().field(index).name().as_str()
}

/// `RecordBatch::column_by_name`, as the position of the column: the first
/// field of that name.
#[verifier::external_body]
pub(crate) fn column_position(batch: &Batch, name: &str) -> (r: Option<usize>)
    ensures
        r matches Some(i) ==> i < batch_columns(*batch).len() && batch_columns(*batch)[i as int].0
            == name@ && forall|k: int| 0 <= k < i ==> batch_columns(*batch)[k].0 != name@,
        r is None ==> forall|k: int|
            0 <= k < batch_columns(*batch).len() ==> batch_columns(*batch)[k].0 != name@,
{
    batch.records.schema_ref().column_with_name(name).map(|found| found.0)
}

/// Arrow's `ArrayData` equality between a column of each of two one-row
/// batches: same type, same validity, same bits of the value.
#[verifier::external_body]
pub(crate) fn same_cell(
    left: &Batch,
    left_index: usize,
    right: &Batch,
    right_index: usize,
) -> (r: bool)
    requires
        batch_rows(*left) == 1,
        batch_rows(*right) == 1,
        left_index < batch_columns(*left).len(),
        right_index < batch_columns(*right).len(),
    ensures
        r == (batch_columns(*left)[left_index as int].1[0] == batch_columns(
            *right,
        )[right_index as int].1[0]),
{
    left.records.column(left_index).to_data() == right.records.column(right_index).to_data()
}

/// `RecordBatch::slice` of one row: the same schema, and of every column that
/// row's slot alone.
#[verifier::external_body]
pub(crate) fn row_slice(batch: &Batch, row: usize) -> (r: Batch)
    requires
        row < batch_rows(*batch),
    ensures
        batch_rows(r) == 1,
        batch_columns(r) == batch_columns(*batch).map_values(
            |column: (Seq<char>, Seq<int>)| (column.0, seq![column.1[row as int]]),
        ),
        batch_metadata(r) == batch_metadata(*batch),
        batch_schema_metadata(r) == batch_schema_metadata(*batch),
        batch_structs(r) == batch_structs(*batch),
        batch_refusals(r) == batch_refusals(*batch),
        batch_texts(r) == batch_texts(*batch).map_values(
            |slots: Seq<Seq<char>>| seq![slots[row as int]],
        ),
        batch_numbers(r) == batch_numbers(*batch).map_values(
            |slots: Seq<u64>| seq![slots[row as int]],
        ),
{
    Batch { records: batch.records.slice(row, 1) }
}

/// Whether a column is an Arrow `StructArray`.
#[verifier::external_body]
pub(crate) fn is_struct_column(batch: &Batch, index: usize) -> (r: bool)
    requires
        index < batch_columns(*batch).len(),
    ensures
        r == batch_structs(*batch)[index as int],
{
    batch.records.column(index).as_any().is::<arrow_array::StructArray>()
}

/// Whether the batch finds a UTF-8 string column under `name`.
#[verifier::external_body]
pub(crate) fn has_text_column(batch: &Batch, name: &str) -> (r: bool)
    ensures
        r == batch_texts(*batch).contains_key(name@),
{
    batch.records.column_by_name(name).is_some_and(|column| column.as_any().is::<arrow_array::StringArray>())
}

/// The text in a slot of the string column that the batch finds under `name`
/// (`StringArray::value`).
#[verifier::external_body]
pub(crate) fn text_at(batch: &Batch, name: &str, row: usize) -> (r: Option<String>)
    requires
        row < batch_rows(*batch),
    ensures
        r is Some <==> batch_texts(*batch).contains_key(name@),
        r matches Some(text) ==> text@ == batch_texts(*batch)[name@][row as int],
{
    let column = batch.records.column_by_name(name)?;
    let texts = column.as_any().downcast_ref::<arrow_array::StringArray>()?;
    Some(texts.value(row).to_string())
}

/// Whether the batch finds an unsigned 64-bit column under `name`.
#[verifier::external_body]
pub(crate) fn has_number_column(batch: &Batch, name: &str) -> (r: bool)
    ensures
        r == batch_numbers(*batch).contains_key(name@),
{
    batch.records.column_by_name(name).is_some_and(|column| column.as_any().is::<arrow_array::UInt64Array>())
}

/// The number in a slot of the unsigned 64-bit column that the batch finds
/// under `name` (`UInt64Array::value`).
#[verifier::external_body]
pub(crate) fn number_at(batch: &Batch, name: &str, row: usize) -> (r: Option<u64>)
    requires
        row < batch_rows(*batch),
    ensures
        r is Some <==> batch_numbers(*batch).contains_key(name@),
        r matches Some(number) ==> number == batch_numbers(*batch)[name@][row as int],
{
    let column = batch.records.column_by_name(name)?;
    let numbers = column.as_any().downcast_ref::<arrow_array::UInt64Array>()?;
    Some(numbers.value(row))
}

/// The metadata by which Lance marks a Blob field: its own marker, whatever the
/// value, or the name of its extension type.
pub open spec fn marks_blob(metadata: Map<Seq<char>, Seq<char>>) -> bool {
    ||| metadata.contains_key("lance-encoding:blob"@)
    ||| metadata.contains_key("ARROW:extension:name"@) && metadata["ARROW:extension:name"@]
        == "lance.blob.v2"@
}

/// Whether Lance takes a field of the batch's schema for a Blob
/// (`lance_core::datatypes::Field::try_from`, then `Field::is_blob`). The
/// conversion refuses a field id that is no number with an invalid-input error,
/// and an unsupported shape with a schema error; the error's text, which names
/// a source line of Lance, is left unsaid.
#[verifier::external_body]
pub(crate) fn is_blob_field(batch: &Batch, index: usize) -> (r: Result<bool, LanceError>)
    requires
        index < batch_columns(*batch).len(),
    ensures
        match r {
            Ok(blob) => batch_refusals(*batch)[index as int] is None && blob == marks_blob(
                batch_metadata(*batch)[index as int],
            ),
            Err(error) => batch_refusals(*batch)[index as int] == Some(error.kind) && (error.kind
                == LanceErrorKind::InvalidInput || error.kind == LanceErrorKind::Schema)
                && error.source is None,
        },
{
    match lance_core::datatypes::Field::try_from(batch.records.schema_ref().field(index)) {
        Ok(field) => Ok(field.is_blob()),
        Err(error @ lance_core::Error::InvalidInput { .. }) => Err(
            LanceError { kind: LanceErrorKind::InvalidInput, message: error.to_string(), source: None },
        ),
        Err(error) => Err(
            LanceError { kind: LanceErrorKind::Schema, message: error.to_string(), source: None },
        ),
    }
}

/// Whether two batches have the same fields and the same columns.
pub open spec fn same_content(a: Batch, b: Batch) -> bool {
    &&& batch_columns(a) == batch_columns(b)
    &&& batch_rows(a) == batch_rows(b)
    &&& batch_metadata(a) == batch_metadata(b)
    &&& batch_structs(a) == batch_structs(b)
    &&& batch_refusals(a) == batch_refusals(b)
    &&& batch_texts(a) == batch_texts(b)
    &&& batch_numbers(a) == batch_numbers(b)
}

/// A single metadata entry.
pub open spec fn one_entry(key: Seq<char>, value: Seq<char>) -> Map<Seq<char>, Seq<char>> {
    Map::empty().insert(key, value)
}

/// Whether Arrow refused a batch with given words.
pub open spec fn is_refusal(result: Result<Batch, ArrowError>, words: Seq<char>) -> bool {
    result matches Err(error) && error::arrow_error_text(error) == Some(words)
}

/// Arrow's words for a batch that has no columns to tell the number of rows by.
pub open spec fn no_columns_text() -> Seq<char> {
    "Invalid argument error: must either specify a row count or at least one column"@
}

/// The batch with the metadata of its schema replaced by one entry
/// (`Schema::with_metadata`, then `RecordBatch::try_new`): the fields and the
/// columns stay. Arrow validates the columns against the fields anew, whatever
/// the metadata of the schema, and refuses a batch without columns.
#[verifier::external_body]
pub(crate) fn with_schema_entry(batch: &Batch, key: &str, value: &str) -> (r: Result<
    Batch,
    ArrowError,
>)
    ensures
        r is Ok <==> batch_rebuilt(*batch) is Ok,
        batch_rebuilt(*batch) matches Err(Some(words)) ==> is_refusal(r, words),
        batch_columns(*batch).len() == 0 ==> is_refusal(r, no_columns_text()),
        r matches Ok(stamped) ==> same_content(stamped, *batch),
        r matches Ok(stamped) ==> batch_schema_metadata(stamped) == one_entry(key@, value@),
{
    let entry = std::collections::HashMap::from([(key.to_string(), value.to_string())]);
    let schema = batch.records.schema().as_ref().clone().with_metadata(entry);
    let columns = batch.records.columns().to_vec();
    let records = arrow_array::RecordBatch::try_new(std::sync::Arc::new(schema), columns)?;
    Ok(Batch { records })
}

} // verus!
