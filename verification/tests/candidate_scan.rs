use omnigraph::changes::candidate_scan::{
    CANDIDATE_SCAN_MAX_VERSIONS, InsertAbsence, NO_BY_SOURCE_DELETE_PROPERTY,
    NO_BY_SOURCE_DELETE_V1, Operation, Transaction, UpdateMode, has_insert_absence_certificate,
    has_no_by_source_delete_marker,
    interval_changed_fragments, interval_version_count, operation_is_row_set_preserving,
    transaction_is_row_set_preserving,
};
use omnigraph::changes::table::{Fragment, TableSnapshot};
use omnigraph::manifest::state::{SubTableEntry, TableIdentity};

const INSERT_ABSENCE_PROPERTY: &str = "insert_absence";
const INSERT_ABSENCE_V1: &str = "v1";

fn certificate() -> InsertAbsence {
    InsertAbsence {
        property: INSERT_ABSENCE_PROPERTY.to_string(),
        value: INSERT_ABSENCE_V1.to_string(),
    }
}

fn is_preserving(transaction: &Transaction) -> bool {
    transaction_is_row_set_preserving(transaction, &certificate())
}

fn update(mode: Option<UpdateMode>) -> Operation {
    Operation::Update {
        removed_fragment_ids: Vec::new(),
        updated_fragments: Vec::new(),
        new_fragments: vec![Fragment::new(0)],
        update_mode: mode,
    }
}

#[test]
fn append_and_rewrite_rows_update_are_row_set_preserving() {
    assert!(operation_is_row_set_preserving(&Operation::Append {
        fragments: vec![Fragment::new(7)],
    }));
    let mut upsert = update(Some(UpdateMode::RewriteRows));
    if let Operation::Update { updated_fragments, removed_fragment_ids, .. } = &mut upsert {
        updated_fragments.push(Fragment::new(1));
        removed_fragment_ids.push(1);
    }
    assert!(operation_is_row_set_preserving(&upsert));
}

#[test]
fn foreign_update_mode_and_removing_ops_fall_back() {
    assert!(!operation_is_row_set_preserving(&update(Some(UpdateMode::RewriteColumns))));
    assert!(!operation_is_row_set_preserving(&update(None)));
    assert!(!operation_is_row_set_preserving(&Operation::Delete {
        updated_fragments: Vec::new(),
        deleted_fragment_ids: Vec::new(),
        predicate: String::new(),
    }));
    assert!(!operation_is_row_set_preserving(&Operation::Restore { version: 0 }));
    assert!(!operation_is_row_set_preserving(&Operation::ReserveFragments { num_fragments: 1 }));
}

fn txn(operation: Operation, properties: &[(&str, &str)]) -> Transaction {
    Transaction {
        operation,
        properties: properties
            .iter()
            .map(|(key, value)| (key.to_string(), value.to_string()))
            .collect(),
    }
}

#[test]
fn transaction_update_prunes_only_with_a_durable_no_delete_proof() {
    // Append is unconditionally additive: no marker required.
    assert!(is_preserving(&txn(
        Operation::Append { fragments: vec![Fragment::new(1)] },
        &[],
    )));
    // A RewriteRows update prunes with the keyed-write no-delete marker ...
    assert!(is_preserving(&txn(
        update(Some(UpdateMode::RewriteRows)),
        &[(NO_BY_SOURCE_DELETE_PROPERTY, NO_BY_SOURCE_DELETE_V1)],
    )));
    // ... or the insert-absence certificate ...
    assert!(is_preserving(&txn(
        update(Some(UpdateMode::RewriteRows)),
        &[(INSERT_ABSENCE_PROPERTY, INSERT_ABSENCE_V1)],
    )));
    // ... but not without a durable proof.
    assert!(operation_is_row_set_preserving(&update(Some(UpdateMode::RewriteRows))));
    assert!(!is_preserving(&txn(
        update(Some(UpdateMode::RewriteRows)),
        &[],
    )));
    // An unrelated property is no proof.
    assert!(!is_preserving(&txn(
        update(Some(UpdateMode::RewriteRows)),
        &[("lance.something", "x")],
    )));
    // A stray marker never makes a removing operation prune.
    assert!(!is_preserving(&txn(
        Operation::Delete {
            updated_fragments: Vec::new(),
            deleted_fragment_ids: Vec::new(),
            predicate: String::new(),
        },
        &[(NO_BY_SOURCE_DELETE_PROPERTY, NO_BY_SOURCE_DELETE_V1)],
    )));
}

#[test]
fn every_other_operation_falls_back() {
    for operation in [
        Operation::Overwrite,
        Operation::CreateIndex,
        Operation::Rewrite,
        Operation::DataReplacement,
        Operation::DataOverlay,
        Operation::Merge,
        Operation::Project,
        Operation::UpdateConfig,
        Operation::UpdateMemWalState,
        Operation::Clone,
        Operation::UpdateBases,
    ] {
        assert!(!operation_is_row_set_preserving(&operation));
        assert!(!is_preserving(&txn(
            operation,
            &[(NO_BY_SOURCE_DELETE_PROPERTY, NO_BY_SOURCE_DELETE_V1)],
        )));
    }
    // A marker of another version is no proof.
    assert!(!is_preserving(&txn(
        update(Some(UpdateMode::RewriteRows)),
        &[(NO_BY_SOURCE_DELETE_PROPERTY, "v0")],
    )));
}

fn entry(version: u64, branch: Option<&str>) -> SubTableEntry {
    SubTableEntry {
        identity: TableIdentity { type_id: 1, incarnation_id: 2 },
        table_key: "node:Person".to_string(),
        table_path: "nodes/1".to_string(),
        table_version: version,
        table_branch: branch.map(str::to_string),
        row_count: 0,
        version_metadata: "{}".to_string(),
    }
}

fn fragment(id: u64, loadable: bool) -> Fragment {
    let mut fragment = Fragment::new(id);
    fragment.update_versions_loadable = loadable;
    fragment
}

fn snapshot(version: u64, fragments: Vec<Fragment>) -> TableSnapshot {
    TableSnapshot { version, uses_stable_row_ids: true, fragments }
}

fn append() -> Transaction {
    txn(Operation::Append { fragments: Vec::new() }, &[])
}

#[test]
fn a_proven_interval_gives_the_fragments_the_parent_lacks() {
    let from = snapshot(4, vec![fragment(0, false), fragment(1, true)]);
    let to = snapshot(5, vec![fragment(3, true), fragment(1, true), fragment(2, true)]);
    let changed = interval_changed_fragments(
        &entry(4, None),
        &entry(5, None),
        &from,
        &to,
        Some(&vec![append()]),
        &certificate(),
    )
    .unwrap();
    let ids: Vec<u64> = changed.iter().map(|fragment| fragment.id).collect();
    assert_eq!(ids, vec![3, 2]);
}

#[test]
fn any_doubt_about_an_interval_falls_back() {
    let from = || snapshot(4, vec![fragment(0, true)]);
    let to = || snapshot(5, vec![fragment(0, true), fragment(1, true)]);
    let prunes = |a: &SubTableEntry, b: &SubTableEntry, x: &TableSnapshot, y: &TableSnapshot,
                  t: Option<&Vec<Transaction>>| {
        interval_changed_fragments(a, b, x, y, t, &certificate()).is_some()
    };
    let one = vec![append()];
    assert!(prunes(&entry(4, None), &entry(5, None), &from(), &to(), Some(&one)));
    // Another branch, or another lifetime.
    assert!(!prunes(&entry(4, None), &entry(5, Some("b")), &from(), &to(), Some(&one)));
    let mut other = entry(5, None);
    other.identity.incarnation_id = 3;
    assert!(!prunes(&entry(4, None), &other, &from(), &to(), Some(&one)));
    // No advance, or too far an advance.
    assert!(!prunes(&entry(5, None), &entry(5, None), &snapshot(5, vec![]), &to(), Some(&one)));
    assert!(!prunes(&entry(6, None), &entry(5, None), &snapshot(6, vec![]), &to(), Some(&one)));
    let far = 4 + CANDIDATE_SCAN_MAX_VERSIONS;
    assert_eq!(
        interval_version_count(&entry(4, None), &entry(far, None), &from(), &snapshot(far, vec![])),
        Some(CANDIDATE_SCAN_MAX_VERSIONS)
    );
    assert_eq!(
        interval_version_count(
            &entry(4, None),
            &entry(far + 1, None),
            &from(),
            &snapshot(far + 1, vec![])
        ),
        None
    );
    // A handle at another version, or without stable row ids.
    assert!(!prunes(&entry(4, None), &entry(5, None), &snapshot(3, vec![]), &to(), Some(&one)));
    let mut unstable = to();
    unstable.uses_stable_row_ids = false;
    assert!(!prunes(&entry(4, None), &entry(5, None), &from(), &unstable, Some(&one)));
    // Missing transactions, or an unproven one.
    assert!(!prunes(&entry(4, None), &entry(5, None), &from(), &to(), None));
    assert!(!prunes(&entry(4, None), &entry(5, None), &from(), &to(), Some(&vec![])));
    let overwrite = vec![txn(Operation::Overwrite, &[])];
    assert!(!prunes(&entry(4, None), &entry(5, None), &from(), &to(), Some(&overwrite)));
    // A changed fragment whose update versions cannot be read.
    let unreadable = snapshot(5, vec![fragment(0, true), fragment(1, false)]);
    assert!(!prunes(&entry(4, None), &entry(5, None), &from(), &unreadable, Some(&one)));
    let carried = snapshot(5, vec![fragment(0, false), fragment(1, true)]);
    assert!(prunes(&entry(4, None), &entry(5, None), &from(), &carried, Some(&one)));
}

#[test]
fn the_marker_and_the_certificate_are_told_apart() {
    let marked = txn(Operation::Merge, &[("omnigraph.no_by_source_delete", "v1")]);
    assert!(has_no_by_source_delete_marker(&marked));
    assert!(!has_insert_absence_certificate(&marked, &certificate()));
    let certified = txn(Operation::Merge, &[(INSERT_ABSENCE_PROPERTY, INSERT_ABSENCE_V1)]);
    assert!(!has_no_by_source_delete_marker(&certified));
    assert!(has_insert_absence_certificate(&certified, &certificate()));
    let other = InsertAbsence { property: "x".to_string(), value: "y".to_string() };
    assert!(!has_insert_absence_certificate(&certified, &other));
}
