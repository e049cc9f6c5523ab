use std::collections::{HashMap, VecDeque};
use std::sync::Arc;

use arrow_array::{ArrayRef, RecordBatch, StringArray, StructArray, UInt64Array};
use arrow_schema::{DataType, Field, Schema};
use omnigraph::changes::batch::Batch;
use omnigraph::changes::blob::{BlobDescriptor, ManagedBlobKind};
use omnigraph::changes::candidate_scan::{InsertAbsence, Operation, PARENT_PROBE_CHUNK, Transaction};
use omnigraph::changes::emit_source::{EmitPlan, EmitSource, SourceStep};
use omnigraph::changes::enumerate::{Emit, FullMerge, MergeStep};
use omnigraph::changes::model::{ChangeFeedScope, ChangeOpKind};
use omnigraph::changes::prepare::BlobDecoding;
use omnigraph::changes::scan::{CHANGE_SCAN_TARGET_ROWS, OrderedRows, ScanPlan};
use omnigraph::changes::table::{DataFile, Fragment, TableSnapshot};
use omnigraph::changes::upserts::{CandidateUpserts, UpsertStep, probe_parent_images};
use omnigraph::error::{LanceError, LanceErrorKind};
use omnigraph::manifest::state::{SubTableEntry, TableIdentity};

type LanceSchema = lance_core::datatypes::Schema;
type Rows = Vec<(String, String)>;

fn rows(values: &[(&str, &str)]) -> Rows {
    values.iter().map(|(id, value)| (id.to_string(), value.to_string())).collect()
}

fn batch_of(rows: &[(String, String)]) -> Batch {
    let ids: ArrayRef =
        Arc::new(StringArray::from(rows.iter().map(|row| row.0.clone()).collect::<Vec<_>>()));
    let values: ArrayRef =
        Arc::new(StringArray::from(rows.iter().map(|row| row.1.clone()).collect::<Vec<_>>()));
    let schema = Schema::new(vec![
        Field::new("id", DataType::Utf8, false),
        Field::new("value", DataType::Utf8, true),
    ]);
    Batch { records: RecordBatch::try_new(Arc::new(schema), vec![ids, values]).unwrap() }
}

fn schema() -> LanceSchema {
    LanceSchema::try_from(&Schema::new(Vec::<Field>::new())).unwrap()
}

fn snapshot() -> TableSnapshot {
    TableSnapshot { version: 1, uses_stable_row_ids: true, fragments: vec![] }
}

/// A scan that delivers its rows two at a time.
fn batches(rows: &Rows) -> VecDeque<Batch> {
    rows.chunks(2).map(batch_of).collect()
}

fn feed(scan: &mut OrderedRows, batches: &mut VecDeque<Batch>) {
    assert!(scan.needs_batch());
    match batches.pop_front() {
        Some(batch) => scan.on_batch(&snapshot(), &schema(), &batch, &vec![]).unwrap(),
        None => scan.on_end(),
    }
}

fn told(emit: &Emit) -> String {
    match emit {
        Emit::Insert(row) => format!("+{}", row.id()),
        Emit::Update { before, after } => {
            assert_eq!(before.id(), after.id());
            format!("~{}", after.id())
        }
        Emit::Delete(row) => format!("-{}", row.id()),
    }
}

fn merged(from: &Rows, to: &Rows, scope: ChangeFeedScope) -> Vec<String> {
    let (mut from, mut to) = (batches(from), batches(to));
    let mut merge = FullMerge::new(scope);
    let mut changes = Vec::new();
    loop {
        match merge.next().unwrap() {
            MergeStep::FillFrom => feed(&mut merge.from, &mut from),
            MergeStep::FillTo => feed(&mut merge.to, &mut to),
            MergeStep::Payloads(_) => panic!("no Blob column"),
            MergeStep::Emit(emit) => changes.push(told(&emit)),
            MergeStep::Done => return changes,
        }
    }
}

fn pruned(parent: &Rows, touched: &Rows, scope: ChangeFeedScope) -> (Vec<String>, usize) {
    let mut touched = batches(touched);
    let mut probed = VecDeque::new();
    let mut probes = 0;
    let mut source = CandidateUpserts::new(scope);
    let mut changes = Vec::new();
    loop {
        match source.next().unwrap() {
            UpsertStep::FillCandidates => feed(&mut source.candidates, &mut touched),
            UpsertStep::Probe(ids) => {
                probes += 1;
                let found: Rows =
                    parent.iter().filter(|row| ids.contains(&row.0)).cloned().collect();
                probed = batches(&found);
            }
            UpsertStep::FillProbe => feed(&mut source.probe, &mut probed),
            UpsertStep::Payloads(_) => panic!("no Blob column"),
            UpsertStep::Emit(emit) => changes.push(told(&emit)),
            UpsertStep::Done => return (changes, probes),
        }
    }
}

fn only(op: ChangeOpKind) -> ChangeFeedScope {
    ChangeFeedScope { ops: Some(vec![op]) }
}

#[test]
fn the_merge_finds_inserts_updates_and_deletes_in_id_order() {
    let from = rows(&[("a", "1"), ("b", "1"), ("d", "1"), ("e", "1"), ("é", "1")]);
    let to = rows(&[("a", "1"), ("c", "1"), ("d", "2"), ("e", "1"), ("f", "1")]);
    assert_eq!(
        merged(&from, &to, ChangeFeedScope::default()),
        vec!["-b", "+c", "~d", "+f", "-é"]
    );
    assert_eq!(merged(&from, &to, only(ChangeOpKind::Insert)), vec!["+c", "+f"]);
    assert_eq!(merged(&from, &to, only(ChangeOpKind::Update)), vec!["~d"]);
    assert_eq!(merged(&from, &to, only(ChangeOpKind::Delete)), vec!["-b", "-é"]);
    assert!(merged(&to, &to, ChangeFeedScope::default()).is_empty());
    assert_eq!(merged(&vec![], &rows(&[("x", "")]), ChangeFeedScope::default()), vec!["+x"]);
    assert_eq!(merged(&rows(&[("x", "")]), &vec![], ChangeFeedScope::default()), vec!["-x"]);
    assert!(merged(&vec![], &vec![], ChangeFeedScope::default()).is_empty());
}

#[test]
fn both_emitters_report_the_same_changes() {
    let from = rows(&[("a", "1"), ("b", "1"), ("d", "1")]);
    let to = rows(&[("a", "1"), ("b", "2"), ("c", "1"), ("d", "1")]);
    // A rewrite may touch a row without changing it.
    let touched = rows(&[("b", "2"), ("c", "1"), ("d", "1")]);
    let expected = merged(&from, &to, ChangeFeedScope::default());
    assert_eq!(expected, vec!["~b", "+c"]);
    assert_eq!(pruned(&from, &touched, ChangeFeedScope::default()), (expected, 1));
    let (updates, _) = pruned(&from, &touched, only(ChangeOpKind::Update));
    assert_eq!(updates, vec!["~b"]);
    assert_eq!(pruned(&from, &vec![], ChangeFeedScope::default()), (vec![], 0));
}

#[test]
fn resuming_reports_what_is_left() {
    let from = rows(&[("a", "1"), ("b", "1"), ("d", "1"), ("e", "1")]);
    let to = rows(&[("a", "2"), ("c", "1"), ("d", "2"), ("f", "1")]);
    let all = merged(&from, &to, ChangeFeedScope::default());
    let after = |rows: &Rows| -> Rows {
        rows.iter().filter(|row| row.0.as_str() > "c").cloned().collect()
    };
    let left = merged(&after(&from), &after(&to), ChangeFeedScope::default());
    assert_eq!(left, vec!["~d", "-e", "+f"]);
    assert!(all.ends_with(&left));
}

#[test]
fn resuming_the_pruned_emitter_reports_what_is_left() {
    let parent = rows(&[("a", "1"), ("b", "1"), ("d", "1")]);
    let touched = rows(&[("a", "2"), ("b", "1"), ("c", "1"), ("d", "2"), ("e", "1")]);
    let later: Rows = touched.iter().filter(|row| row.0.as_str() > "b").cloned().collect();
    let (all, _) = pruned(&parent, &touched, ChangeFeedScope::default());
    assert_eq!(all, vec!["~a", "+c", "~d", "+e"]);
    let (left, _) = pruned(&parent, &later, ChangeFeedScope::default());
    assert_eq!(left, all[1..].to_vec());
    let (inserts, _) = pruned(&parent, &later, only(ChangeOpKind::Insert));
    assert_eq!(inserts, vec!["+c", "+e"]);
}

#[test]
fn candidates_are_probed_a_chunk_at_a_time() {
    let many: Rows =
        (0..PARENT_PROBE_CHUNK + 1).map(|i| (format!("{i:06}"), "1".to_string())).collect();
    let parent = vec![many[0].clone()];
    let (changes, probes) = pruned(&parent, &many, ChangeFeedScope::default());
    assert_eq!(probes, 2);
    assert_eq!(changes.len(), PARENT_PROBE_CHUNK);
    assert_eq!(changes[0], "+000001");
}

#[test]
fn every_candidate_is_asked_for_once_and_changes_are_given_first() {
    let many: Rows =
        (0..2 * PARENT_PROBE_CHUNK + 5).map(|i| (format!("{i:06}"), "1".to_string())).collect();
    let mut touched: VecDeque<Batch> = many.chunks(5_000).map(batch_of).collect();
    let mut source = CandidateUpserts::new(ChangeFeedScope::default());
    let (mut asked, mut sizes, mut given) = (Vec::new(), Vec::new(), 0);
    loop {
        match source.next().unwrap() {
            UpsertStep::FillCandidates => {
                assert_eq!(given, asked.len());
                feed(&mut source.candidates, &mut touched);
            }
            UpsertStep::Probe(ids) => {
                assert_eq!(given, asked.len());
                sizes.push(ids.len());
                asked.extend(ids);
            }
            UpsertStep::FillProbe => source.probe.on_end(),
            UpsertStep::Payloads(_) => panic!("no Blob column"),
            UpsertStep::Emit(_) => given += 1,
            UpsertStep::Done => break,
        }
        assert!(source.ready.len() + source.chunk.len() <= PARENT_PROBE_CHUNK);
    }
    assert_eq!(sizes, vec![PARENT_PROBE_CHUNK, PARENT_PROBE_CHUNK, 5]);
    assert_eq!(asked, many.iter().map(|row| row.0.clone()).collect::<Vec<_>>());
    assert_eq!(given, many.len());
}

#[test]
fn a_row_that_cannot_be_compared_drops_its_chunk_and_no_more() {
    let mut source = CandidateUpserts::new(ChangeFeedScope::default());
    let mut touched = batches(&rows(&[("a", "1"), ("b", "1"), ("c", "1")]));
    let bare = Schema::new(vec![
        Field::new("id", DataType::Utf8, false),
        Field::new("gone", DataType::Utf8, true),
    ]);
    let values: Vec<ArrayRef> = vec![
        Arc::new(StringArray::from(vec!["b"])),
        Arc::new(StringArray::from(vec!["x"])),
    ];
    let parent = Batch { records: RecordBatch::try_new(Arc::new(bare), values).unwrap() };
    let mut probed = VecDeque::from([parent]);
    let error = loop {
        match source.next() {
            Ok(UpsertStep::FillCandidates) => feed(&mut source.candidates, &mut touched),
            Ok(UpsertStep::Probe(_)) => {}
            Ok(UpsertStep::FillProbe) => feed(&mut source.probe, &mut probed),
            Ok(_) => panic!("the second row cannot be compared"),
            Err(error) => break error,
        }
    };
    assert_eq!(error.to_string(), "schema-gated change row is missing column 'gone'");
    let Ok(UpsertStep::Emit(emit)) = source.next() else { panic!("a change was found before") };
    assert_eq!(told(&emit), "+a");
    assert!(matches!(source.next(), Ok(UpsertStep::Done)));
}

// Managed Blobs.

fn blob_batch(id: &str) -> Batch {
    let ids: ArrayRef = Arc::new(StringArray::from(vec![id]));
    let address: ArrayRef = Arc::new(UInt64Array::from(vec![0_u64]));
    let zero: ArrayRef = Arc::new(UInt64Array::from(vec![0_u64]));
    let doc: ArrayRef = Arc::new(StructArray::from(vec![(
        Arc::new(Field::new("position", DataType::UInt64, true)),
        zero,
    )]));
    let marker = HashMap::from([("lance-encoding:blob".to_string(), "true".to_string())]);
    let schema = Schema::new(vec![
        Field::new("id", DataType::Utf8, false),
        Field::new("doc", doc.data_type().clone(), true).with_metadata(marker),
        Field::new("_rowaddr", DataType::UInt64, true),
    ]);
    let columns = vec![ids, doc, address];
    Batch { records: RecordBatch::try_new(Arc::new(schema), columns).unwrap() }
}

fn feed_blob(scan: &mut OrderedRows, path: &str, left: &mut usize) {
    if *left == 0 {
        scan.on_end();
        return;
    }
    *left -= 1;
    let mut fragment = Fragment::new(0);
    fragment.files.push(DataFile { path: path.to_string(), fields: vec![0] });
    let table =
        TableSnapshot { version: 1, uses_stable_row_ids: true, fragments: vec![fragment] };
    let mut schema = LanceSchema::try_from(&Schema::new(vec![Field::new(
        "doc",
        DataType::LargeBinary,
        true,
    )]))
    .unwrap();
    schema.set_field_id(None);
    let descriptor = BlobDescriptor::Managed {
        kind: ManagedBlobKind::Dedicated,
        position: 0,
        size: 1,
        blob_id: 0,
    };
    let decodings = vec![BlobDecoding::Rows(vec![Ok(descriptor)])];
    scan.on_batch(&table, &schema, &blob_batch("a"), &decodings).unwrap();
}

fn blob_merge(before: &str, after: &str) -> Vec<String> {
    let mut merge = FullMerge::new(ChangeFeedScope::default());
    let (mut from, mut to) = (1, 1);
    let mut changes = Vec::new();
    let value = |text: &str| vec![vec![Some(text.to_string())]];
    loop {
        match merge.next().unwrap() {
            MergeStep::FillFrom => feed_blob(&mut merge.from, "old", &mut from),
            MergeStep::FillTo => feed_blob(&mut merge.to, "new", &mut to),
            MergeStep::Payloads(columns) => {
                assert_eq!(columns, vec!["doc"]);
                let emit = merge.on_payloads(&value(before), &value(after));
                changes.extend(emit.iter().map(told));
            }
            MergeStep::Emit(emit) => changes.push(told(&emit)),
            MergeStep::Done => return changes,
        }
    }
}

fn blob_upserts(before: &str, after: &str) -> Vec<String> {
    let mut source = CandidateUpserts::new(ChangeFeedScope::default());
    let (mut touched, mut probed) = (1, 1);
    let mut changes = Vec::new();
    let value = |text: &str| vec![vec![Some(text.to_string())]];
    loop {
        match source.next().unwrap() {
            UpsertStep::FillCandidates => feed_blob(&mut source.candidates, "new", &mut touched),
            UpsertStep::Probe(ids) => assert_eq!(ids, vec!["a"]),
            UpsertStep::FillProbe => feed_blob(&mut source.probe, "old", &mut probed),
            UpsertStep::Payloads(columns) => {
                assert_eq!(columns, vec!["doc"]);
                source.on_payloads(&value(before), &value(after));
            }
            UpsertStep::Emit(emit) => changes.push(told(&emit)),
            UpsertStep::Done => return changes,
        }
    }
}

#[test]
fn moved_bytes_are_no_change_and_other_bytes_are() {
    assert!(blob_merge("same", "same").is_empty());
    assert_eq!(blob_merge("old", "new"), vec!["~a"]);
    assert!(blob_upserts("same", "same").is_empty());
    assert_eq!(blob_upserts("old", "new"), vec!["~a"]);
}

#[test]
fn a_failed_read_drops_the_chunk_at_hand() {
    let mut source = CandidateUpserts::new(ChangeFeedScope::default());
    let mut touched = batches(&rows(&[("a", "1"), ("b", "1")]));
    assert!(matches!(source.next(), Ok(UpsertStep::FillCandidates)));
    feed(&mut source.candidates, &mut touched);
    assert!(matches!(source.next(), Ok(UpsertStep::FillCandidates)));
    let error = source.candidates.on_error(LanceError {
        kind: LanceErrorKind::Timeout,
        message: "slow".to_string(),
        source: None,
    });
    assert_eq!(error.to_string(), "storage: slow");
    source.abandon();
    assert!(matches!(source.next(), Ok(UpsertStep::FillCandidates)));
    source.candidates.on_end();
    assert!(matches!(source.next(), Ok(UpsertStep::Done)));
}

#[test]
fn an_empty_batch_is_passed_over() {
    let mut scan = OrderedRows::new();
    scan.on_batch(&snapshot(), &schema(), &batch_of(&[]), &vec![]).unwrap();
    assert!(scan.needs_batch());
    scan.on_batch(&snapshot(), &schema(), &batch_of(&rows(&[("a", "1")])), &vec![]).unwrap();
    assert!(!scan.needs_batch());
    assert_eq!(scan.peek().unwrap().id(), "a");
    assert_eq!(scan.pop().unwrap().id(), "a");
    assert!(scan.needs_batch());
    scan.on_end();
    assert!(!scan.needs_batch());
    assert!(scan.peek().is_none());
    assert!(scan.pop().is_none());
}

// Plans.

fn filter_text(plan: &ScanPlan) -> String {
    plan.filter.as_ref().map(|filter| filter.to_string()).unwrap_or_default()
}

fn assert_change_scan(plan: &ScanPlan, batch_bytes: u64) {
    assert_eq!(plan.order_by, "id");
    assert_eq!(plan.batch_rows, CHANGE_SCAN_TARGET_ROWS);
    assert_eq!(plan.batch_bytes, batch_bytes);
    assert!(plan.blob_descriptions && plan.with_row_id && plan.with_row_address);
}

#[test]
fn scans_resume_and_filter() {
    let whole = OrderedRows::open(None, 5);
    assert_change_scan(&whole, 5);
    assert!(whole.filter.is_none() && whole.fragments.is_none());
    let resumed = OrderedRows::open(Some("k"), 5);
    assert_eq!(filter_text(&resumed), "id > Utf8(\"k\")");

    let touched = CandidateUpserts::open(4, 6, vec![Fragment::new(9)], Some("k"), 5);
    assert_change_scan(&touched, 5);
    assert_eq!(
        filter_text(&touched),
        "id > Utf8(\"k\") AND _row_last_updated_at_version > UInt64(4) AND _row_last_updated_at_version <= UInt64(6)"
    );
    assert_eq!(touched.fragments.unwrap()[0].id, 9);

    let ids = vec!["a".to_string(), "b".to_string()];
    let probe = probe_parent_images(&ids, 5).unwrap();
    assert_change_scan(&probe, 5);
    assert_eq!(filter_text(&probe), "id IN ([Utf8(\"a\"), Utf8(\"b\")])");
    assert!(probe_parent_images(&vec![], 5).is_none());
}

fn entry(version: u64) -> SubTableEntry {
    SubTableEntry {
        identity: TableIdentity { type_id: 1, incarnation_id: 1 },
        table_key: "node:Person".to_string(),
        table_path: "p".to_string(),
        table_version: version,
        table_branch: None,
        row_count: 0,
        version_metadata: String::new(),
    }
}

#[test]
fn an_interval_is_pruned_only_where_it_is_proven() {
    let table = |version, ids: &[u64]| TableSnapshot {
        version,
        uses_stable_row_ids: true,
        fragments: ids
            .iter()
            .map(|id| {
                let mut fragment = Fragment::new(*id);
                fragment.update_versions_loadable = true;
                fragment
            })
            .collect(),
    };
    let scope = ChangeFeedScope::default();
    let plan = |operation| {
        let transactions = vec![Transaction { operation, properties: vec![] }];
        EmitSource::plan(
            &entry(4),
            &entry(5),
            &table(4, &[0]),
            &table(5, &[0, 1]),
            "parent",
            "child",
            Some(&transactions),
            &InsertAbsence { property: "certified".to_string(), value: "v1".to_string() },
            None,
            &scope,
            7,
        )
    };
    let (mut source, starts) = plan(Operation::Append { fragments: vec![] });
    let EmitPlan::Pruned { candidates } = starts else { panic!("an append prunes") };
    assert_eq!((*source.parent_dataset(), *source.child_dataset()), ("parent", "child"));
    assert_eq!(candidates.fragments.as_ref().unwrap()[0].id, 1);
    assert_eq!(
        filter_text(&candidates),
        "_row_last_updated_at_version > UInt64(4) AND _row_last_updated_at_version <= UInt64(5)"
    );
    assert!(matches!(
        source.next(),
        Ok(SourceStep::Pruned(UpsertStep::FillCandidates))
    ));

    let (mut source, starts) = plan(Operation::Overwrite);
    let EmitPlan::FullMerge { from, to } = starts else { panic!("an overwrite falls back") };
    assert_eq!((*source.parent_dataset(), *source.child_dataset()), ("parent", "child"));
    assert!(from.fragments.is_none() && to.fragments.is_none());
    assert!(from.filter.is_none() && to.filter.is_none());
    assert!(matches!(source.next(), Ok(SourceStep::FullMerge(MergeStep::FillFrom))));
}
