use std::collections::HashMap;
use std::sync::Arc;

use arrow_array::builder::{ListBuilder, StringBuilder};
use arrow_array::{
    Array, ArrayRef, Float64Array, Int64Array, RecordBatch, StringArray, StructArray, UInt64Array,
};
use arrow_schema::{DataType, Field, Schema};
use omnigraph::changes::batch::Batch;
use omnigraph::changes::blob::{BlobDescriptor, ManagedBlobKind};
use omnigraph::changes::model::{
    ChangeFeedScope, ChangeOpKind, is_reserved_storage_system_column,
};
use omnigraph::changes::prepare::{BlobDecoding, blob_columns_to_decode, prepare_batch};
use omnigraph::changes::row_compare::{RawRow, RowComparison, compare_rows, rows_equal};
use omnigraph::changes::schema::{checked_schema_fingerprint, user_schema_fingerprint};
use omnigraph::changes::table::{DataFile, Fragment, TableSnapshot};
use omnigraph::error::OmniError;
use omnigraph::storage::StorageFailureKind;

type LanceSchema = lance_core::datatypes::Schema;

fn field(name: &str, array: &ArrayRef) -> Field {
    Field::new(name, array.data_type().clone(), true)
}

fn batch(columns: Vec<(Field, ArrayRef)>) -> Batch {
    let (fields, arrays): (Vec<Field>, Vec<ArrayRef>) = columns.into_iter().unzip();
    Batch { records: RecordBatch::try_new(Arc::new(Schema::new(fields)), arrays).unwrap() }
}

fn plain(columns: Vec<(&str, ArrayRef)>) -> Batch {
    batch(columns.into_iter().map(|(name, array)| (field(name, &array), array)).collect())
}

fn texts(values: Vec<Option<&str>>) -> ArrayRef {
    Arc::new(StringArray::from(values))
}

fn numbers(values: Vec<u64>) -> ArrayRef {
    Arc::new(UInt64Array::from(values))
}

fn empty_schema() -> LanceSchema {
    LanceSchema::try_from(&Schema::new(Vec::<Field>::new())).unwrap()
}

fn no_fragments() -> TableSnapshot {
    TableSnapshot { version: 1, uses_stable_row_ids: true, fragments: vec![] }
}

fn only_row(batch: &Batch) -> RawRow {
    RawRow::single(&no_fragments(), &empty_schema(), batch, 0, &vec![]).unwrap()
}

fn outcome(left: &Batch, right: &Batch) -> RowComparison {
    compare_rows(&only_row(left), &only_row(right)).unwrap()
}

fn with_property(value: ArrayRef) -> Batch {
    plain(vec![("id", texts(vec![Some("a")])), ("property", value)])
}

fn list(values: Option<Vec<&str>>) -> ArrayRef {
    let mut builder = ListBuilder::new(StringBuilder::new());
    match values {
        Some(values) => {
            for value in values {
                builder.values().append_value(value);
            }
            builder.append(true);
        }
        None => builder.append(false),
    }
    Arc::new(builder.finish())
}

#[test]
fn rows_of_a_batch_come_out_in_order() {
    let batch = plain(vec![
        ("id", texts(vec![Some("b"), Some("a")])),
        ("_rowid", numbers(vec![7, 9])),
    ]);
    let rows = prepare_batch(&no_fragments(), &empty_schema(), &batch, &vec![]).unwrap();
    let ids: Vec<&str> = rows.iter().map(|row| row.id()).collect();
    assert_eq!(ids, vec!["b", "a"]);
    let row_ids: Vec<u64> = rows.iter().map(|row| row.row_id().unwrap()).collect();
    assert_eq!(row_ids, vec![7, 9]);
    assert_eq!(rows[1].slice().records.num_rows(), 1);
    let single = RawRow::single(&no_fragments(), &empty_schema(), &batch, 1, &vec![]).unwrap();
    assert_eq!(single.id(), "a");
    assert_eq!(single.clone().id(), "a");
    assert_eq!(single.row_id().unwrap(), 9);
}

#[test]
fn a_row_keeps_its_one_row_slice() {
    let (ids, body) = (texts(vec![Some("b"), Some("a")]), texts(vec![Some(""), None]));
    let schema = Schema::new_with_metadata(
        vec![
            field("id", &ids),
            field("body", &body).with_metadata(HashMap::from([("k".to_string(), "v".to_string())])),
        ],
        HashMap::from([("table".to_string(), "t".to_string())]),
    );
    let records = RecordBatch::try_new(Arc::new(schema), vec![ids, body]).unwrap();
    let batch = Batch { records: records.clone() };
    let rows = prepare_batch(&no_fragments(), &empty_schema(), &batch, &vec![]).unwrap();
    assert_eq!(rows.len(), 2);
    for (index, row) in rows.iter().enumerate() {
        assert_eq!(row.slice().records, records.slice(index, 1));
        assert_eq!(row.clone().slice().records, records.slice(index, 1));
        let single =
            RawRow::single(&no_fragments(), &empty_schema(), &batch, index, &vec![]).unwrap();
        assert_eq!(single.slice().records, records.slice(index, 1));
    }
    assert_eq!((rows[0].id(), rows[1].id()), ("b", "a"));
}

#[test]
fn null_empty_text_and_empty_list_stay_distinct() {
    let null = with_property(texts(vec![None]));
    let empty = with_property(texts(vec![Some("")]));
    assert!(matches!(outcome(&null, &null), RowComparison::Equal));
    assert!(matches!(outcome(&empty, &empty), RowComparison::Equal));
    assert!(matches!(outcome(&null, &empty), RowComparison::Different));
    let null_list = with_property(list(None));
    let empty_list = with_property(list(Some(vec![])));
    assert!(matches!(outcome(&null_list, &empty_list), RowComparison::Different));
    assert!(matches!(outcome(&empty, &empty_list), RowComparison::Different));
}

#[test]
fn nested_values_are_not_conflated_by_their_spelling() {
    let one = with_property(list(Some(vec!["a, b"])));
    let two = with_property(list(Some(vec!["a", "b"])));
    assert!(matches!(outcome(&one, &two), RowComparison::Different));
    assert!(matches!(outcome(&two, &two), RowComparison::Equal));
}

#[test]
fn floats_compare_by_their_bits() {
    let value = |bits: u64| {
        with_property(Arc::new(Float64Array::from(vec![f64::from_bits(bits)])) as ArrayRef)
    };
    let nan = f64::NAN.to_bits();
    assert!(matches!(outcome(&value(nan), &value(nan)), RowComparison::Equal));
    assert!(matches!(
        outcome(&value(0.0_f64.to_bits()), &value((-0.0_f64).to_bits())),
        RowComparison::Different
    ));
}

#[test]
fn only_the_reserved_columns_are_skipped() {
    for name in [
        "_rowid",
        "_rowaddr",
        "_rowoffset",
        "_row_created_at_version",
        "_row_last_updated_at_version",
    ] {
        assert!(is_reserved_storage_system_column(name));
        let version = |value| {
            plain(vec![("id", texts(vec![Some("a")])), (name, numbers(vec![value]))])
        };
        assert!(matches!(outcome(&version(1), &version(2)), RowComparison::Equal));
    }
    assert!(!is_reserved_storage_system_column("_row_notes"));
    let notes = |value| {
        plain(vec![("id", texts(vec![Some("a")])), ("_row_notes", texts(vec![Some(value)]))])
    };
    assert!(matches!(outcome(&notes("before"), &notes("after")), RowComparison::Different));
}

#[test]
fn the_order_of_the_columns_does_not_matter() {
    let left = plain(vec![
        ("id", texts(vec![Some("a")])),
        ("x", numbers(vec![1])),
        ("y", texts(vec![Some("t")])),
    ]);
    let right = plain(vec![
        ("y", texts(vec![Some("t")])),
        ("x", numbers(vec![1])),
        ("id", texts(vec![Some("a")])),
    ]);
    assert!(matches!(outcome(&left, &right), RowComparison::Equal));
    assert!(matches!(outcome(&right, &left), RowComparison::Equal));
}

#[test]
fn reserved_columns_may_be_absent_or_repeated() {
    let id = || ("id", texts(vec![Some("a")]));
    let bare = plain(vec![id(), ("n", numbers(vec![1]))]);
    let scanned = plain(vec![
        id(),
        ("n", numbers(vec![1])),
        ("_rowid", numbers(vec![7])),
        ("_rowid", numbers(vec![9])),
    ]);
    let changed = plain(vec![("_rowid", numbers(vec![7])), id(), ("n", numbers(vec![2]))]);
    assert!(matches!(outcome(&scanned, &scanned), RowComparison::Equal));
    assert!(matches!(outcome(&bare, &scanned), RowComparison::Equal));
    assert!(matches!(outcome(&scanned, &bare), RowComparison::Equal));
    assert!(matches!(outcome(&scanned, &changed), RowComparison::Different));
    assert!(matches!(outcome(&changed, &scanned), RowComparison::Different));
}

#[test]
fn a_value_of_another_type_is_another_value() {
    let unsigned = with_property(numbers(vec![1]));
    let signed = with_property(Arc::new(Int64Array::from(vec![1])));
    assert!(matches!(outcome(&unsigned, &signed), RowComparison::Different));
}

#[test]
fn a_column_that_the_schema_promises_must_be_there() {
    let left = with_property(numbers(vec![1]));
    let right = plain(vec![("id", texts(vec![Some("a")]))]);
    let error = compare_rows(&only_row(&left), &only_row(&right)).unwrap_err();
    assert_eq!(
        error.to_string(),
        "schema-gated change row is missing column 'property'"
    );
}

// Blob columns.

fn descriptions(rows: usize) -> ArrayRef {
    let position: ArrayRef = numbers(vec![0; rows]);
    let size: ArrayRef = numbers(vec![0; rows]);
    Arc::new(StructArray::from(vec![
        (Arc::new(Field::new("position", DataType::UInt64, true)), position),
        (Arc::new(Field::new("size", DataType::UInt64, true)), size),
    ]))
}

fn blob_field(name: &str, array: &ArrayRef) -> Field {
    field(name, array).with_metadata(HashMap::from([(
        "lance-encoding:blob".to_string(),
        "true".to_string(),
    )]))
}

fn extension_field(name: &str, array: &ArrayRef) -> Field {
    field(name, array).with_metadata(HashMap::from([(
        "ARROW:extension:name".to_string(),
        "lance.blob.v2".to_string(),
    )]))
}

fn table_schema(names: &[&str]) -> LanceSchema {
    let fields: Vec<Field> =
        names.iter().map(|name| Field::new(*name, DataType::LargeBinary, true)).collect();
    let mut schema = LanceSchema::try_from(&Schema::new(fields)).unwrap();
    schema.set_field_id(None);
    schema
}

fn table(path: &str, fields: Vec<i32>) -> TableSnapshot {
    let mut fragment = Fragment::new(3);
    fragment.files.push(DataFile { path: "other".to_string(), fields: vec![99] });
    fragment.files.push(DataFile { path: path.to_string(), fields });
    TableSnapshot { version: 1, uses_stable_row_ids: true, fragments: vec![fragment] }
}

fn blob_batch() -> Batch {
    let id = texts(vec![Some("a")]);
    let address = numbers(vec![(3 << 32) | 5]);
    let doc = descriptions(1);
    batch(vec![
        (field("id", &id), id),
        (blob_field("doc", &doc), doc),
        (field("_rowaddr", &address), address),
    ])
}

fn managed(position: u64) -> BlobDescriptor {
    BlobDescriptor::Managed { kind: ManagedBlobKind::Packed, position, size: 4, blob_id: 1 }
}

fn external(offset: u64) -> BlobDescriptor {
    BlobDescriptor::External { uri: "s3://b/k".to_string(), offset, length: 4 }
}

fn blob_row(path: &str, descriptor: BlobDescriptor) -> RawRow {
    let decodings = vec![BlobDecoding::Rows(vec![Ok(descriptor)])];
    let batch = blob_batch();
    assert_eq!(blob_columns_to_decode(&batch), vec![1]);
    prepare_batch(&table(path, vec![0]), &table_schema(&["doc"]), &batch, &decodings)
        .unwrap()
        .pop_front()
        .unwrap()
}

fn compared(left: &RawRow, right: &RawRow) -> RowComparison {
    compare_rows(left, right).unwrap()
}

#[test]
fn a_managed_blob_is_known_by_its_file_and_place() {
    let here = blob_row("f1", managed(8));
    assert!(matches!(compared(&here, &blob_row("f1", managed(8))), RowComparison::Equal));
    let RowComparison::Payloads(columns) = compared(&here, &blob_row("f2", managed(8))) else {
        panic!("the payloads decide")
    };
    assert_eq!(columns, vec!["doc"]);
    assert!(matches!(
        compared(&here, &blob_row("f1", managed(9))),
        RowComparison::Payloads(_)
    ));
}

#[test]
fn payloads_decide_where_bytes_were_moved() {
    let before = blob_row("f1", managed(8));
    let after = blob_row("f2", managed(0));
    let bytes = |text: &str| vec![vec![Some(text.to_string())]];
    assert!(rows_equal(&before, &after, &bytes("xyz"), &bytes("xyz")).unwrap());
    assert!(!rows_equal(&before, &after, &bytes("xyz"), &bytes("xyw")).unwrap());
    assert!(!rows_equal(&before, &after, &bytes("xyz"), &vec![vec![None]]).unwrap());
    // Where no payload is asked for, none is looked at.
    assert!(rows_equal(&before, &before, &bytes("xyz"), &bytes("xyw")).unwrap());
}

#[test]
fn external_and_null_identities_are_decisive() {
    let whole = blob_row("f1", external(0));
    assert!(matches!(compared(&whole, &blob_row("f2", external(0))), RowComparison::Equal));
    assert!(matches!(compared(&whole, &blob_row("f1", external(1))), RowComparison::Different));
    let null = blob_row("f1", BlobDescriptor::Null);
    assert!(matches!(compared(&null, &null), RowComparison::Equal));
    assert!(matches!(compared(&null, &whole), RowComparison::Different));
    assert!(matches!(compared(&null, &blob_row("f1", managed(8))), RowComparison::Different));
    assert!(matches!(compared(&whole, &blob_row("f1", managed(8))), RowComparison::Different));
}

#[test]
fn both_blob_markers_are_known() {
    let id = texts(vec![Some("a")]);
    let address = numbers(vec![3 << 32]);
    let (x, y) = (descriptions(1), descriptions(1));
    let marked = batch(vec![
        (extension_field("z", &x), x),
        (field("id", &id), id),
        (blob_field("doc", &y), y),
        (field("_rowaddr", &address), address),
    ]);
    assert_eq!(blob_columns_to_decode(&marked), vec![0, 2]);
    let decodings = || {
        vec![BlobDecoding::Rows(vec![Ok(external(0))]), BlobDecoding::Rows(vec![Ok(managed(8))])]
    };
    let schema = table_schema(&["z", "doc"]);
    let row = |path: &str| {
        prepare_batch(&table(path, vec![0, 1]), &schema, &marked, &decodings())
            .unwrap()
            .pop_front()
            .unwrap()
    };
    let RowComparison::Payloads(columns) = compared(&row("f1"), &row("f2")) else {
        panic!("the payloads decide")
    };
    assert_eq!(columns, vec!["doc"]);
}

#[test]
fn another_set_of_blob_columns_is_a_change() {
    let id = texts(vec![Some("a")]);
    let doc = descriptions(1);
    let unmarked = batch(vec![(field("id", &id), id), (field("doc", &doc), doc)]);
    let without = only_row(&unmarked);
    let with = blob_row("f1", managed(8));
    assert!(matches!(compared(&with, &without), RowComparison::Different));
    assert!(matches!(compared(&without, &with), RowComparison::Different));
}

fn fault(
    snapshot: &TableSnapshot,
    schema: &LanceSchema,
    batch: &Batch,
    decodings: Vec<BlobDecoding>,
) -> OmniError {
    prepare_batch(snapshot, schema, batch, &decodings).unwrap_err()
}

fn failure_kind(error: &OmniError) -> StorageFailureKind {
    error.storage_failure().unwrap().kind
}

#[test]
fn every_fault_of_a_batch_is_reported() {
    let none = no_fragments();
    let bare = empty_schema();
    let good = || vec![BlobDecoding::Rows(vec![Ok(managed(8))])];

    let no_id = plain(vec![("x", numbers(vec![1]))]);
    let error = fault(&none, &bare, &no_id, vec![]);
    assert_eq!(error.to_string(), "storage: change row is missing string id");
    assert_eq!(failure_kind(&error), StorageFailureKind::Unknown);
    let wrong_id = plain(vec![("id", numbers(vec![1]))]);
    let error = fault(&none, &bare, &wrong_id, vec![]);
    assert_eq!(error.to_string(), "storage: change row is missing string id");

    let id = texts(vec![Some("a")]);
    let bad = field("id", &id).with_metadata(HashMap::from([(
        "lance:field_id".to_string(),
        "no number".to_string(),
    )]));
    let refused = batch(vec![(bad, id)]);
    let error = fault(&none, &bare, &refused, vec![]);
    assert_eq!(failure_kind(&error), StorageFailureKind::Configuration);
    assert!(error.to_string().starts_with("storage: Invalid user input: "));

    let unsupported = Schema::new(vec![
        Field::new("id", DataType::Utf8, false),
        Field::new("m", DataType::Interval(arrow_schema::IntervalUnit::DayTime), true),
    ]);
    let refused = Batch { records: RecordBatch::new_empty(Arc::new(unsupported)) };
    let error = fault(&none, &bare, &refused, vec![]);
    assert_eq!(failure_kind(&error), StorageFailureKind::Permanent);
    assert!(error.to_string().starts_with("storage: LanceError(Schema): "));

    let (id, doc) = (texts(vec![Some("a")]), texts(vec![Some("x")]));
    let undescribed = batch(vec![(field("id", &id), id), (blob_field("doc", &doc), doc)]);
    assert!(blob_columns_to_decode(&undescribed).is_empty());
    let error = fault(&none, &bare, &undescribed, vec![]);
    assert_eq!(
        error.to_string(),
        "storage: expected blob descriptions for change column 'doc'"
    );

    let error = fault(&none, &bare, &blob_batch(), good());
    assert_eq!(failure_kind(&error), StorageFailureKind::Permanent);
    assert!(error.to_string().starts_with(
        "storage: blob column 'doc' has no field id: LanceError(Schema): Vector column not in schema"
    ));

    let schema = table_schema(&["doc"]);
    let unreadable = vec![BlobDecoding::Unreadable("no descriptor".to_string())];
    let error = fault(&none, &schema, &blob_batch(), unreadable);
    assert_eq!(error.to_string(), "blob integrity violation: no descriptor");

    let (id, doc) = (texts(vec![Some("a")]), descriptions(1));
    let unaddressed = batch(vec![(field("id", &id), id), (blob_field("doc", &doc), doc)]);
    let error = fault(&none, &schema, &unaddressed, good());
    assert_eq!(
        error.to_string(),
        "storage: change scan is missing _rowaddr; managed Blob comparison needs the owning data file"
    );

    let error = fault(&none, &schema, &blob_batch(), good());
    assert_eq!(
        error.to_string(),
        "storage: change scan referenced fragment 3 absent from the manifest"
    );
    let error = fault(&table("f", vec![5]), &schema, &blob_batch(), good());
    assert_eq!(error.to_string(), "storage: fragment 3 has no data file for blob field 0");

    let contradiction = vec![BlobDecoding::Rows(vec![Err("two sizes".to_string())])];
    let error = fault(&table("f", vec![0]), &schema, &blob_batch(), contradiction);
    assert_eq!(error.to_string(), "blob integrity violation: two sizes");

    let without = plain(vec![("id", texts(vec![Some("a")]))]);
    let error = only_row(&without).row_id().unwrap_err();
    assert_eq!(error.to_string(), "storage: change row is missing _rowid");
}

#[test]
fn a_scope_selects_operations() {
    let all = ChangeFeedScope::default();
    let inserts = ChangeFeedScope { ops: Some(vec![ChangeOpKind::Insert]) };
    let nothing = ChangeFeedScope { ops: Some(vec![]) };
    for op in [ChangeOpKind::Insert, ChangeOpKind::Update, ChangeOpKind::Delete] {
        assert!(all.wants_op(op));
        assert_eq!(inserts.wants_op(op), op == ChangeOpKind::Insert);
        assert_eq!(inserts.clone().wants_op(op), op == ChangeOpKind::Insert);
        assert!(!nothing.wants_op(op));
    }
}

// Schema fingerprints.

fn fingerprinted(fields: Vec<Field>) -> LanceSchema {
    LanceSchema::try_from(&Schema::new(fields)).unwrap()
}

fn tagged(name: &str, value: &str) -> Field {
    Field::new(name, DataType::Utf8, true)
        .with_metadata(HashMap::from([("property".to_string(), value.to_string())]))
}

#[test]
fn a_fingerprint_tells_schemas_apart_and_ignores_order() {
    let of = |fields| user_schema_fingerprint(&fingerprinted(fields), "property");
    let base = || vec![tagged("a", "1"), Field::new("b", DataType::Int64, false)];
    let same = |fields| of(base()).same_as(&of(fields));
    assert!(same(base()));
    assert!(same(base().into_iter().rev().collect()));
    assert!(same(vec![
        tagged("a", "1"),
        Field::new("_rowid", DataType::UInt64, true),
        Field::new("b", DataType::Int64, false),
    ]));
    assert!(!same(vec![tagged("a", "1")]));
    assert!(!same(vec![tagged("a", "2"), Field::new("b", DataType::Int64, false)]));
    assert!(!same(vec![tagged("a", "1"), Field::new("b", DataType::Int64, true)]));
    assert!(!same(vec![tagged("a", "1"), Field::new("b", DataType::Int32, false)]));
    assert!(!same(vec![tagged("a", "1"), Field::new("c", DataType::Int64, false)]));
    assert!(!same(vec![
        tagged("a", "1"),
        Field::new("b", DataType::Int64, false),
        Field::new("_row_notes", DataType::Utf8, true),
    ]));
    let binary = Field::new("c", DataType::LargeBinary, true);
    let marked = binary.clone().with_metadata(HashMap::from([(
        "lance-encoding:blob".to_string(),
        "true".to_string(),
    )]));
    assert!(of(vec![marked.clone()]).same_as(&of(vec![marked.clone()])));
    assert!(!of(vec![binary]).same_as(&of(vec![marked])));
}

#[test]
fn a_field_without_an_arrow_type_gives_no_fingerprint() {
    let stamp = |zone: &str| {
        DataType::Timestamp(arrow_schema::TimeUnit::Second, Some(Arc::from(zone)))
    };
    let list = |item: DataType| DataType::List(Arc::new(Field::new("item", item, true)));
    let pair = |inner: DataType| {
        DataType::Struct(vec![Field::new("a", DataType::Utf8, true), Field::new("b", inner, true)].into())
    };
    let unchecked = |fields: Vec<Field>| LanceSchema {
        fields: fields
            .iter()
            .map(|field| lance_core::datatypes::Field::try_from(field).unwrap())
            .collect(),
        metadata: HashMap::new(),
    };
    let of = |data_type: DataType| {
        let schema = unchecked(vec![Field::new("x", data_type, true)]);
        let checked = checked_schema_fingerprint(&schema, "property");
        if let Some(checked) = &checked {
            assert!(checked.same_as(&user_schema_fingerprint(&schema, "property")));
        }
        checked.is_some()
    };
    assert!(of(DataType::Utf8));
    assert!(of(stamp("UTC")));
    assert!(of(list(pair(stamp("UTC")))));
    assert!(of(DataType::FixedSizeList(
        Arc::new(Field::new("item", pair(DataType::Int64), true)),
        2
    )));
    // Lance stores the zone behind a colon, and cannot read another colon back.
    assert!(!of(stamp("+01:00")));
    assert!(!of(list(stamp("+01:00"))));
    assert!(!of(pair(list(stamp("+01:00")))));
    assert!(!of(DataType::FixedSizeList(
        Arc::new(Field::new("item", pair(stamp("+01:00")), true)),
        2
    )));
    // The size of a list of structs must be a number.
    let sized = |size: &str| {
        let pair = pair(DataType::Int64);
        let item = Field::new("item", pair, true);
        let list = Field::new("x", DataType::FixedSizeList(Arc::new(item), 2), true);
        let mut schema = unchecked(vec![list]);
        let spelled = format!("fixed_size_list:struct:{size}");
        schema.fields[0].logical_type = lance_core::datatypes::LogicalType::from(spelled.as_str());
        checked_schema_fingerprint(&schema, "property").is_some()
    };
    for size in ["2", "+2", "-2", "0002", "2147483647", "-2147483648"] {
        assert!(sized(size) && size.parse::<i32>().is_ok(), "{size}");
    }
    for size in ["", "+", "-", "2x", " 2", "--2", "2147483648", "-2147483649", "99999999999999999999"] {
        assert!(!sized(size) && size.parse::<i32>().is_err(), "{size}");
    }
    // A reserved column is not looked at.
    let schema = unchecked(vec![
        Field::new("id", DataType::Utf8, false),
        Field::new("_rowid", stamp("+01:00"), true),
    ]);
    assert!(checked_schema_fingerprint(&schema, "property").is_some());
}
