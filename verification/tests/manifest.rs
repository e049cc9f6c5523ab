use std::collections::HashMap;
use std::sync::Arc;

use arrow_array::{ArrayRef, Int64Array, RecordBatch};
use arrow_schema::{DataType, Field, Schema};
use lance_core::datatypes::{
    LANCE_UNENFORCED_PRIMARY_KEY, LANCE_UNENFORCED_PRIMARY_KEY_POSITION,
};
use omnigraph::changes::batch::Batch;
use omnigraph::error::{LanceError, LanceErrorKind, OmniError};
use omnigraph::manifest::genesis::{
    GENESIS_MANIFEST_VERSION, GenesisManifestAttempt, GenesisObservation, ManifestInitError,
    authenticate_exact_genesis, genesis_probe_mismatch,
};
use omnigraph::manifest::graph::{
    Catalog, CreatedTable, EntityKind, FileVersion, SchemaIr, TypeIr, create_empty_dataset,
    full_table_path, init_manifest_graph,
};
use omnigraph::manifest::keyed_schema::{
    PRIMARY_KEY, PRIMARY_KEY_POSITION, keyed_graph_table_schema,
};
use omnigraph::manifest::state::{GraphLineageRow, TableIdentity};
use omnigraph::storage::StorageFailureKind;
use omnigraph::text::{decimal_text, has_prefix, is_text_less, same_text, trimmed_root};

fn with(field: Field, entries: &[(&str, &str)]) -> Field {
    field.with_metadata(
        entries.iter().map(|(key, value)| (key.to_string(), value.to_string())).collect(),
    )
}

#[test]
fn the_key_metadata_is_the_substrates_own() {
    assert_eq!(PRIMARY_KEY, LANCE_UNENFORCED_PRIMARY_KEY);
    assert_eq!(PRIMARY_KEY_POSITION, LANCE_UNENFORCED_PRIMARY_KEY_POSITION);
}

#[test]
fn exactly_the_id_becomes_the_key() {
    let schema = Schema::new_with_metadata(
        vec![
            with(
                Field::new("id", DataType::Utf8, false),
                &[(PRIMARY_KEY_POSITION, "2"), ("kept", "x")],
            ),
            with(
                Field::new("other", DataType::Int64, true),
                &[(PRIMARY_KEY, "true"), (PRIMARY_KEY_POSITION, "1"), ("kept", "y")],
            ),
        ],
        HashMap::from([("table".to_string(), "t".to_string())]),
    );
    let keyed = keyed_graph_table_schema(&schema).unwrap();
    assert_eq!(
        keyed,
        Schema::new_with_metadata(
            vec![
                with(
                    Field::new("id", DataType::Utf8, false),
                    &[(PRIMARY_KEY, "true"), ("kept", "x")],
                ),
                with(Field::new("other", DataType::Int64, true), &[("kept", "y")]),
            ],
            HashMap::from([("table".to_string(), "t".to_string())]),
        )
    );
    assert_eq!(keyed_graph_table_schema(&keyed).unwrap(), keyed);

    let create = create_empty_dataset(&schema).unwrap();
    assert_eq!(create.schema, keyed);
    assert!(create.params.must_not_exist && create.params.enable_stable_row_ids);
    assert!(create.params.allow_external_blob_outside_bases && create.params.skip_auto_cleanup);
    assert!(!create.params.auto_cleanup);
    assert_eq!(create.params.data_storage_version, FileVersion::V2_2);
}

#[test]
fn a_keyed_table_has_one_id_that_is_never_null() {
    let id = |nullable| Field::new("id", DataType::Utf8, nullable);
    let refused = |fields: Vec<Field>| {
        let schema = Schema::new(fields);
        let text = keyed_graph_table_schema(&schema).unwrap_err().to_string();
        assert_eq!(create_empty_dataset(&schema).unwrap_err().to_string(), text);
        text
    };
    assert_eq!(
        refused(vec![Field::new("ID", DataType::Utf8, false)]),
        "graph table initialization requires exactly one top-level `id` field; found 0"
    );
    assert_eq!(
        refused(vec![id(false), id(true)]),
        "graph table initialization requires exactly one top-level `id` field; found 2"
    );
    assert_eq!(
        refused(vec![id(true)]),
        "graph table initialization requires a non-null `id` field"
    );
}

fn lineage_of(attempt: &GenesisManifestAttempt) -> GraphLineageRow {
    let row = attempt.lineage();
    GraphLineageRow {
        graph_commit_id: row.graph_commit_id.clone(),
        manifest_branch: row.manifest_branch.clone(),
        manifest_version: row.manifest_version,
        parent_commit_id: row.parent_commit_id.clone(),
        merged_parent_commit_id: row.merged_parent_commit_id.clone(),
        actor_id: row.actor_id.clone(),
        created_at: row.created_at,
    }
}

fn observed(attempt: &GenesisManifestAttempt) -> GenesisObservation {
    GenesisObservation {
        stamp: 6,
        dataset_version: GENESIS_MANIFEST_VERSION,
        state_version: GENESIS_MANIFEST_VERSION,
        lineage_rows: vec![lineage_of(attempt)],
        graph_head_row_count: 1,
        graph_heads: vec![(
            "main".to_string(),
            attempt.lineage().graph_commit_id.clone(),
        )],
    }
}

#[test]
fn a_receipt_is_parentless_and_random() {
    let attempt = GenesisManifestAttempt::mint(1_700_000_000_000_000);
    let row = attempt.lineage();
    assert_eq!(row.manifest_version, 1);
    assert_eq!(row.created_at, 1_700_000_000_000_000);
    assert!(row.manifest_branch.is_none() && row.actor_id.is_none());
    assert!(row.parent_commit_id.is_none() && row.merged_parent_commit_id.is_none());
    assert_eq!(row.graph_commit_id.len(), 26);
    assert!(ulid::Ulid::from_string(&row.graph_commit_id).is_ok());
    let other = GenesisManifestAttempt::mint(1_700_000_000_000_000);
    assert_ne!(row.graph_commit_id, other.lineage().graph_commit_id);
}

#[test]
fn only_its_own_genesis_authenticates_for_an_attempt() {
    let attempt = GenesisManifestAttempt::with_commit_id("01A".to_string(), 5);
    let refused = |change: &dyn Fn(&mut GenesisObservation)| {
        let mut seen = observed(&attempt);
        change(&mut seen);
        let error = authenticate_exact_genesis("s3://g//", &attempt, &seen, 6).unwrap_err();
        let text = error.to_string();
        let front =
            "__manifest at 's3://g' is not the exact genesis created by this initialization attempt: ";
        assert!(text.starts_with(front));
        text[front.len()..].to_string()
    };
    assert!(authenticate_exact_genesis("s3://g", &attempt, &observed(&attempt), 6).is_ok());

    assert_eq!(
        refused(&|seen| seen.stamp = 12),
        "internal-schema stamp is v12, expected v6"
    );
    assert_eq!(
        refused(&|seen| seen.dataset_version = 3),
        "manifest version is 3, expected 1"
    );
    assert_eq!(
        refused(&|seen| seen.state_version = 2),
        "manifest version is 1, expected 1"
    );
    let lineage = "genesis lineage does not match this initialization attempt";
    assert_eq!(refused(&|seen| seen.lineage_rows.clear()), lineage);
    assert_eq!(refused(&|seen| seen.lineage_rows[0].created_at = 6), lineage);
    assert_eq!(
        refused(&|seen| seen.lineage_rows[0].actor_id = Some("me".to_string())),
        lineage
    );
    assert_eq!(refused(&|seen| seen.lineage_rows.push(lineage_of(&attempt))), lineage);
    let head = "main graph head does not match this initialization attempt";
    assert_eq!(refused(&|seen| seen.graph_head_row_count = 2), head);
    assert_eq!(refused(&|seen| seen.graph_heads.clear()), head);
    assert_eq!(refused(&|seen| seen.graph_heads[0].0 = "dev".to_string()), head);
    assert_eq!(refused(&|seen| seen.graph_heads[0].1 = "01B".to_string()), head);

    // A valid genesis of another attempt is not enough.
    let other = GenesisManifestAttempt::with_commit_id("01B".to_string(), 5);
    assert!(authenticate_exact_genesis("s3://g", &other, &observed(&attempt), 6).is_err());
    assert!(matches!(genesis_probe_mismatch("r", "d"), OmniError::Manifest(_)));
}

fn type_ir(name: &str, type_id: u64) -> TypeIr {
    TypeIr { name: name.to_string(), type_id, table_incarnation_id: type_id + 100 }
}

fn catalog(bound: bool) -> Catalog {
    let ir = SchemaIr {
        nodes: vec![type_ir("Person", 2), type_ir("City", 1)],
        edges: vec![type_ir("Knows", 3)],
    };
    Catalog {
        bound_schema_ir: if bound { Some(ir) } else { None },
        node_types: vec!["City".to_string(), "Person".to_string()],
        edge_types: vec!["Knows".to_string()],
    }
}

#[test]
fn tables_are_created_in_catalog_order() {
    let catalog = catalog(true);
    let mut init = init_manifest_graph("mem://g/", &catalog).unwrap();
    assert_eq!(init.root(), "mem://g");
    assert!(!init.is_complete());
    let mut asked = Vec::new();
    while let Some(request) = init.next_table(&catalog).unwrap() {
        asked.push((request.kind, request.position, request.table_key.clone()));
        assert_eq!(request.table_incarnation_id, request.type_id + 100);
        let created = CreatedTable {
            table_path: format!("tables/{}", request.type_id),
            table_version: 1,
            metadata: format!("{{\"t\":{}}}", request.type_id),
        };
        assert_eq!(full_table_path(init.root(), "t"), "mem://g/t");
        init.on_created(request, created);
    }
    assert_eq!(
        asked,
        vec![
            (EntityKind::Node, 0, "node:City".to_string()),
            (EntityKind::Node, 1, "node:Person".to_string()),
            (EntityKind::Edge, 0, "edge:Knows".to_string()),
        ]
    );
    assert!(init.is_complete());
    let paths: Vec<&str> =
        init.initial().entries.iter().map(|entry| entry.table_path.as_str()).collect();
    assert_eq!(paths, vec!["tables/1", "tables/2", "tables/3"]);
    let last = &init.initial().entries[2];
    assert_eq!((last.table_key.as_str(), last.row_count), ("edge:Knows", 0));
    assert!(last.table_branch.is_none());
    assert_eq!(last.identity, TableIdentity { type_id: 3, incarnation_id: 103 });
    assert_eq!(init.initial().version_metadata[1].1, "{\"t\":2}");
}

#[test]
fn a_catalog_must_be_bound_and_complete() {
    let error = init_manifest_graph("g", &catalog(false)).unwrap_err();
    assert!(matches!(error, ManifestInitError::BeforeManifestCreate(_)));
    assert_eq!(
        OmniError::from(error).to_string(),
        "manifest initialization requires an identity-bound accepted catalog"
    );
    let mut missing = catalog(true);
    missing.node_types[0] = "Town".to_string();
    let init = init_manifest_graph("g", &missing).unwrap();
    let error = init.next_table(&missing).unwrap_err();
    assert_eq!(error.to_string(), "identity-bound catalog is missing node IR for 'Town'");
    missing.node_types.clear();
    missing.edge_types[0] = "Likes".to_string();
    let error = init.next_table(&missing).unwrap_err();
    assert_eq!(error.to_string(), "identity-bound catalog is missing edge IR for 'Likes'");
}

fn no_types() -> Catalog {
    Catalog {
        bound_schema_ir: Some(SchemaIr { nodes: vec![], edges: vec![] }),
        node_types: vec![],
        edge_types: vec![],
    }
}

fn manifest_batch() -> Batch {
    let column: ArrayRef = Arc::new(Int64Array::from(vec![1, 2]));
    let schema = Schema::new_with_metadata(
        vec![with(Field::new("n", DataType::Int64, false), &[("kept", "x")])],
        HashMap::from([("dropped".to_string(), "x".to_string())]),
    );
    Batch { records: RecordBatch::try_new(Arc::new(schema), vec![column]).unwrap() }
}

#[test]
fn a_failure_after_the_create_call_has_an_unknown_outcome() {
    let mut init = init_manifest_graph("g", &no_types()).unwrap();
    assert!(init.is_complete());
    let slow = || LanceError {
        kind: LanceErrorKind::Timeout,
        message: "slow".to_string(),
        source: None,
    };
    assert!(matches!(init.storage_failed(slow()), ManifestInitError::BeforeManifestCreate(_)));

    let create = init.create(&manifest_batch(), "stamp", "6").unwrap();
    let records = create.batch.records;
    assert_eq!(
        records.schema().metadata(),
        &HashMap::from([("stamp".to_string(), "6".to_string())])
    );
    assert_eq!(records.columns(), manifest_batch().records.columns());
    assert_eq!(records.schema().field(0), manifest_batch().records.schema().field(0));
    assert!(create.params.must_not_exist && !create.params.allow_external_blob_outside_bases);

    let failed = init.storage_failed(slow());
    assert!(matches!(failed, ManifestInitError::ManifestCreateOutcomeUnknown(_)));
    let source = failed.into_source();
    assert_eq!(source.to_string(), "storage: slow");
    assert_eq!(source.storage_failure().unwrap().kind, StorageFailureKind::Transient);
    let failed = init.failed(OmniError::Policy("no".to_string()));
    assert!(matches!(failed, ManifestInitError::ManifestCreateOutcomeUnknown(_)));
    assert!(matches!(
        ManifestInitError::from(OmniError::Policy("no".to_string())),
        ManifestInitError::BeforeManifestCreate(_)
    ));
}

#[test]
fn a_batch_without_columns_cannot_be_stamped() {
    let mut init = init_manifest_graph("g", &no_types()).unwrap();
    let bare = Batch { records: RecordBatch::new_empty(Arc::new(Schema::empty())) };
    let error = init.create(&bare, "stamp", "6").unwrap_err();
    assert!(matches!(error, ManifestInitError::BeforeManifestCreate(_)));
    assert_eq!(
        error.into_source().to_string(),
        "attach stamp metadata to init batch: Invalid argument error: must either specify a row count or at least one column"
    );
    let failed = init.failed(OmniError::Policy("no".to_string()));
    assert!(matches!(failed, ManifestInitError::BeforeManifestCreate(_)));
}

#[test]
fn texts_are_rendered_and_compared() {
    assert_eq!(decimal_text(0), "0");
    assert_eq!(decimal_text(u64::MAX), "18446744073709551615");
    assert_eq!(trimmed_root("a//b///"), "a//b");
    assert_eq!(trimmed_root("///"), "");
    assert!(has_prefix("storage: x", "storage: "));
    assert!(!has_prefix("stor", "storage: "));
    assert!(same_text("é", "é") && !same_text("e", "é"));
    assert!(is_text_less("", "a") && is_text_less("Z", "a") && is_text_less("z", "é"));
    assert!(is_text_less("a", "aa") && !is_text_less("a", "a") && !is_text_less("b", "a"));
}
