//! Turning a scanned batch into comparison-ready rows.

use std::collections::{HashMap, VecDeque};

use lance_core::datatypes::Schema;
use vstd::prelude::*;

use crate::changes::batch::{
    self, Batch, BatchView, column_count, column_name, has_number_column, has_text_column,
    is_blob_field, is_struct_column, number_at, row_count, row_slice, text_at,
};
use crate::changes::blob::{BlobDescriptor, DescriptorView, IdentityView};
use crate::changes::model::{self, is_reserved_storage_system_column};
use crate::changes::row_compare::{self, BlobColumnSig, RawRow, RowView};
use crate::changes::schema::{self, field_id};
use crate::changes::table::{
    self, Fragment, TableSnapshot, data_file_path_for_field, fragments_by_id, unclassified_storage,
};
use crate::error::{self, LanceErrorKind, OmniError};
use crate::storage::StorageFailureKind;
use crate::text::{self, is_text_less, joined};

verus! {

/// What decoding the descriptors of one Blob column gave: nothing but a reason
/// why they cannot be read, or for each row the descriptor or the contradiction
/// found in it.
#[derive(Debug)]
pub enum BlobDecoding {
    Unreadable(String),
    Rows(Vec<Result<BlobDescriptor, String>>),
}

/// A decoding over plain values.
pub enum DecodingView {
    Unreadable(Seq<char>),
    Rows(Seq<Result<DescriptorView, Seq<char>>>),
}

impl View for BlobDecoding {
    type V = DecodingView;

    open spec fn view(&self) -> DecodingView {
        match *self {
            BlobDecoding::Unreadable(reason) => DecodingView::Unreadable(reason@),
            BlobDecoding::Rows(rows) => DecodingView::Rows(
                rows@.map_values(
                    |row: Result<BlobDescriptor, String>|
                        match row {
                            Ok(descriptor) => Ok(descriptor@),
                            Err(reason) => Err(reason@),
                        },
                ),
            ),
        }
    }
}

/// Decodings over plain values.
pub open spec fn decoding_views(decodings: Seq<BlobDecoding>) -> Seq<DecodingView> {
    decodings.map_values(|decoding: BlobDecoding| decoding@)
}

/// Whether a column holds Blob descriptors.
pub open spec fn holds_descriptors(batch: Batch, index: int) -> bool {
    &&& !model::reserved_column(batch::batch_columns(batch)[index].0)
    &&& batch::batch_refusals(batch)[index] is None
    &&& batch::marks_blob(batch::batch_metadata(batch)[index])
    &&& batch::batch_structs(batch)[index]
}

/// The columns among the first `count` that hold Blob descriptors.
pub open spec fn descriptor_columns(batch: Batch, count: nat) -> Seq<int>
    decreases count,
{
    if count == 0 {
        Seq::empty()
    } else {
        let before = descriptor_columns(batch, (count - 1) as nat);
        if holds_descriptors(batch, count - 1) {
            before.push(count - 1)
        } else {
            before
        }
    }
}

/// The columns of a batch that hold Blob descriptors.
pub open spec fn all_descriptor_columns(batch: Batch) -> Seq<int> {
    descriptor_columns(batch, batch::batch_columns(batch).len())
}

/// Whether there is one decoding for every column that holds descriptors, each
/// with one entry for every row.
pub open spec fn decodings_fit(batch: Batch, decodings: Seq<DecodingView>) -> bool {
    &&& decodings.len() == all_descriptor_columns(batch).len()
    &&& forall|i: int|
        0 <= i < decodings.len() ==> (#[trigger] decodings[i] matches DecodingView::Rows(rows)
            ==> rows.len() == batch::batch_rows(batch))
}

/// Lists the columns whose descriptors a caller decodes before the batch is
/// prepared.
pub fn blob_columns_to_decode(batch: &Batch) -> (r: Vec<usize>)
    ensures
        r@.map_values(|i: usize| i as int) == all_descriptor_columns(*batch),
{
    let total: usize = column_count(batch);
    let mut found: Vec<usize> = Vec::new();
    let mut i: usize = 0;
    while i < total
        invariant
            i <= total,
            total == batch::batch_columns(*batch).len(),
            found@.map_values(|k: usize| k as int) == descriptor_columns(*batch, i as nat),
        decreases total - i,
    {
        let ghost before = found@;
        if !is_reserved_storage_system_column(column_name(batch, i)) {
            let blob = match is_blob_field(batch, i) {
                Ok(blob) => blob,
                Err(_) => false,
            };
            if blob && is_struct_column(batch, i) {
                found.push(i);
                proof {
                    assert(found@.map_values(|k: usize| k as int) =~= before.map_values(
                        |k: usize| k as int,
                    ).push(i as int));
                }
            }
        }
        i = i + 1;
    }
    found
}

/// Why a batch cannot be prepared.
pub enum BatchFault {
    NoId,
    FieldRefused { kind: LanceErrorKind },
    NoDescriptions { column: Seq<char> },
    NoFieldId { column: Seq<char> },
    Unreadable { reason: Seq<char> },
    NoRowAddress,
    NoFragment { fragment_id: u64 },
    NoDataFile { fragment_id: u64, field_id: i32 },
    Contradiction { reason: Seq<char> },
}

/// Whether `error` is how `fault` is reported. Where Lance itself refused, the
/// text goes on with Lance's own.
pub open spec fn reports(fault: BatchFault, error: OmniError) -> bool {
    match fault {
        BatchFault::NoId => error::is_storage(
            error,
            StorageFailureKind::Unknown,
            "storage: "@ + "change row is missing string id"@,
        ),
        BatchFault::FieldRefused { kind } => error matches OmniError::Storage(failure) && Some(
            failure.kind,
        ) == error::lance_condition(kind) && "storage: "@.is_prefix_of(failure.message@),
        BatchFault::NoDescriptions { column } => error::is_storage(
            error,
            StorageFailureKind::Unknown,
            "storage: "@ + ("expected blob descriptions for change column '"@ + column + "'"@),
        ),
        BatchFault::NoFieldId { column } => error matches OmniError::Storage(failure)
            && failure.kind == StorageFailureKind::Permanent && ("storage: "@ + ("blob column '"@
            + column + "' has no field id"@) + ": "@).is_prefix_of(failure.message@),
        BatchFault::Unreadable { reason } => error matches OmniError::BlobIntegrity { reason: text }
            && text@ == reason,
        BatchFault::NoRowAddress => error::is_storage(
            error,
            StorageFailureKind::Unknown,
            "storage: "@
                + "change scan is missing _rowaddr; managed Blob comparison needs the owning data file"@,
        ),
        BatchFault::NoFragment { fragment_id } => error::is_storage(
            error,
            StorageFailureKind::Unknown,
            table::no_fragment_text(fragment_id),
        ),
        BatchFault::NoDataFile { fragment_id, field_id } => error::is_storage(
            error,
            StorageFailureKind::Unknown,
            table::no_data_file_text(fragment_id, field_id),
        ),
        BatchFault::Contradiction { reason } => error matches OmniError::BlobIntegrity {
            reason: text,
        } && text@ == reason,
    }
}

/// A Blob column of a batch: its name, its field id, and which of the decodings
/// is its own.
struct BlobColumn {
    name: String,
    field_id: i32,
    slot: usize,
}

/// A Blob column over plain values.
pub struct BlobColumnView {
    pub name: Seq<char>,
    pub field_id: i32,
    pub slot: int,
}

impl View for BlobColumn {
    type V = BlobColumnView;

    closed spec fn view(&self) -> BlobColumnView {
        BlobColumnView { name: self.name@, field_id: self.field_id, slot: self.slot as int }
    }
}

/// The Blob columns among the first `count` in schema order, or the first fault
/// among those columns.
pub open spec fn blob_columns_among(
    schema: Schema,
    batch: Batch,
    decodings: Seq<DecodingView>,
    count: nat,
) -> Result<Seq<BlobColumnView>, BatchFault>
    decreases count,
{
    if count == 0 {
        Ok(Seq::empty())
    } else {
        match blob_columns_among(schema, batch, decodings, (count - 1) as nat) {
            Err(fault) => Err(fault),
            Ok(before) => {
                let index = count - 1;
                let name = batch::batch_columns(batch)[index].0;
                let ids = schema::schema_field_ids(schema);
                let slot = descriptor_columns(batch, index as nat).len() as int;
                if model::reserved_column(name) {
                    Ok(before)
                } else if batch::batch_refusals(batch)[index] is Some {
                    Err(
                        BatchFault::FieldRefused {
                            kind: batch::batch_refusals(batch)[index]->0,
                        },
                    )
                } else if !batch::marks_blob(batch::batch_metadata(batch)[index]) {
                    Ok(before)
                } else if !batch::batch_structs(batch)[index] {
                    Err(BatchFault::NoDescriptions { column: name })
                } else if !ids.contains_key(name) {
                    Err(BatchFault::NoFieldId { column: name })
                } else {
                    match decodings[slot] {
                        DecodingView::Unreadable(reason) => Err(BatchFault::Unreadable { reason }),
                        DecodingView::Rows(_) => Ok(
                            before.push(BlobColumnView { name, field_id: ids[name], slot }),
                        ),
                    }
                }
            },
        }
    }
}

/// `columns`, in name order, with `column` put behind every column that does
/// not follow it.
pub open spec fn placed_by_name(columns: Seq<BlobColumnView>, column: BlobColumnView) -> Seq<
    BlobColumnView,
>
    decreases columns.len(),
{
    if columns.len() > 0 && text::text_less(column.name, columns.last().name) {
        placed_by_name(columns.drop_last(), column).push(columns.last())
    } else {
        columns.push(column)
    }
}

/// The columns in name order; columns of one name keep their order.
pub open spec fn in_name_order(columns: Seq<BlobColumnView>) -> Seq<BlobColumnView>
    decreases columns.len(),
{
    if columns.len() == 0 {
        columns
    } else {
        placed_by_name(in_name_order(columns.drop_last()), columns.last())
    }
}

/// The identities of a row in a given fragment, or the first fault in it.
pub open spec fn identities_in(
    fragments: Seq<Fragment>,
    columns: Seq<BlobColumnView>,
    decodings: Seq<DecodingView>,
    fragment_id: u64,
    row: int,
) -> Result<Seq<(Seq<char>, IdentityView)>, BatchFault>
    decreases columns.len(),
{
    if columns.len() == 0 {
        Ok(Seq::empty())
    } else {
        match identities_in(fragments, columns.drop_last(), decodings, fragment_id, row) {
            Err(fault) => Err(fault),
            Ok(before) => {
                let column = columns.last();
                let by_id = table::fragment_map(fragments);
                if !by_id.contains_key(fragment_id) {
                    Err(BatchFault::NoFragment { fragment_id })
                } else {
                    match table::first_file_with(
                        by_id[fragment_id].files@,
                        column.field_id,
                    ) {
                        None => Err(
                            BatchFault::NoDataFile { fragment_id, field_id: column.field_id },
                        ),
                        Some(path) => match decodings[column.slot]->Rows_0[row] {
                            Err(reason) => Err(BatchFault::Contradiction { reason }),
                            Ok(descriptor) => Ok(
                                before.push((column.name, descriptor.in_file(path))),
                            ),
                        },
                    }
                }
            },
        }
    }
}

/// The identities of one row of a batch. The fragment that owns the row is the
/// upper half of its address; without Blob columns the address is not read.
pub open spec fn identities_of_row(
    fragments: Seq<Fragment>,
    batch: Batch,
    columns: Seq<BlobColumnView>,
    decodings: Seq<DecodingView>,
    row: int,
) -> Result<Seq<(Seq<char>, IdentityView)>, BatchFault> {
    identities_in(
        fragments,
        columns,
        decodings,
        batch::batch_numbers(batch)["_rowaddr"@][row] >> 32u64,
        row,
    )
}

/// The first `count` rows, or the first fault among them.
pub open spec fn rows_among(
    fragments: Seq<Fragment>,
    batch: Batch,
    columns: Seq<BlobColumnView>,
    decodings: Seq<DecodingView>,
    count: nat,
) -> Result<Seq<RowView>, BatchFault>
    decreases count,
{
    if count == 0 {
        Ok(Seq::empty())
    } else {
        match rows_among(fragments, batch, columns, decodings, (count - 1) as nat) {
            Err(fault) => Err(fault),
            Ok(before) => match identities_of_row(fragments, batch, columns, decodings, count - 1) {
                Err(fault) => Err(fault),
                Ok(blobs) => Ok(before.push(row_compare::row_at(batch, count - 1, blobs))),
            },
        }
    }
}

/// The rows that a batch holds, or the first fault found in it.
pub open spec fn prepared(
    fragments: Seq<Fragment>,
    schema: Schema,
    batch: Batch,
    decodings: Seq<DecodingView>,
) -> Result<Seq<RowView>, BatchFault> {
    if !batch::batch_texts(batch).contains_key("id"@) {
        Err(BatchFault::NoId)
    } else {
        match blob_columns_among(
            schema,
            batch,
            decodings,
            batch::batch_columns(batch).len(),
        ) {
            Err(fault) => Err(fault),
            Ok(columns) => if columns.len() > 0 && !batch::batch_numbers(
                batch,
            ).contains_key("_rowaddr"@) {
                Err(BatchFault::NoRowAddress)
            } else {
                rows_among(
                    fragments,
                    batch,
                    in_name_order(columns),
                    decodings,
                    batch::batch_rows(batch),
                )
            },
        }
    }
}

spec fn column_views(columns: Seq<BlobColumn>) -> Seq<BlobColumnView> {
    columns.map_values(|column: BlobColumn| column@)
}

fn collect_blob_columns(schema: &Schema, batch: &Batch, decodings: &Vec<BlobDecoding>) -> (r: Result<
    Vec<BlobColumn>,
    OmniError,
>)
    requires
        decodings_fit(*batch, decoding_views(decodings@)),
    ensures
        match (
            r,
            blob_columns_among(
                *schema,
                *batch,
                decoding_views(decodings@),
                batch::batch_columns(*batch).len(),
            ),
        ) {
            (Ok(columns), Ok(expected)) => column_views(columns@) == expected && forall|k: int|
                0 <= k < columns@.len() ==> (#[trigger] columns@[k]).slot < decodings@.len()
                    && decodings@[columns@[k].slot as int] is Rows,
            (Err(error), Err(fault)) => reports(fault, error),
            _ => false,
        },
{
    let total: usize = column_count(batch);
    let ghost views = decoding_views(decodings@);
    let mut columns: Vec<BlobColumn> = Vec::new();
    let mut slot: usize = 0;
    let mut i: usize = 0;
    proof {
        assert(column_views(columns@) =~= Seq::empty());
    }
    while i < total
        invariant
            i <= total,
            total == batch::batch_columns(*batch).len(),
            decodings_fit(*batch, views),
            views == decoding_views(decodings@),
            slot == descriptor_columns(*batch, i as nat).len(),
            blob_columns_among(*schema, *batch, views, i as nat) == Ok::<
                Seq<BlobColumnView>,
                BatchFault,
            >(column_views(columns@)),
            forall|k: int|
                0 <= k < columns@.len() ==> (#[trigger] columns@[k]).slot < decodings@.len()
                    && decodings@[columns@[k].slot as int] is Rows,
        decreases total - i,
    {
        proof {
            lemma_faults_stay(*schema, *batch, views, (i + 1) as nat, total as nat);
            lemma_descriptor_columns_grow(*batch, (i + 1) as nat, total as nat);
        }
        let name: &str = column_name(batch, i);
        if !is_reserved_storage_system_column(name) {
            let blob = match is_blob_field(batch, i) {
                Ok(blob) => blob,
                Err(error) => {
                    return Err(OmniError::storage(error));
                },
            };
            if blob {
                if !is_struct_column(batch, i) {
                    let mut message = joined("expected blob descriptions for change column '", name);
                    message.append("'");
                    return Err(unclassified_storage(message));
                }
                let id: i32 = match field_id(schema, name) {
                    Ok(id) => id,
                    Err(error) => {
                        let mut context = joined("blob column '", name);
                        context.append("' has no field id");
                        let ghost text = error.message@;
                        let reported = OmniError::storage_context(context.as_str(), error);
                        proof {
                            let front = "storage: "@ + context@ + ": "@;
                            assert((front + text).subrange(0, front.len() as int) =~= front);
                        }
                        return Err(reported);
                    },
                };
                assert(views[slot as int] == decodings@[slot as int]@);
                match &decodings[slot] {
                    BlobDecoding::Unreadable(reason) => {
                        return Err(OmniError::blob_integrity(reason.clone()));
                    },
                    BlobDecoding::Rows(_) => {},
                }
                let ghost before = columns@;
                columns.push(BlobColumn { name: String::from_str(name), field_id: id, slot });
                proof {
                    assert(column_views(columns@) =~= column_views(before).push(columns@.last()@));
                }
                assert(slot < decodings.len());
                slot = slot + 1;
            }
        }
        i = i + 1;
    }
    Ok(columns)
}

proof fn lemma_faults_stay(
    schema: Schema,
    batch: Batch,
    decodings: Seq<DecodingView>,
    some: nat,
    all: nat,
)
    requires
        some <= all,
    ensures
        blob_columns_among(schema, batch, decodings, some) matches Err(fault) ==> blob_columns_among(
            schema,
            batch,
            decodings,
            all,
        ) == Err::<Seq<BlobColumnView>, BatchFault>(fault),
    decreases all - some,
{
    if some < all {
        lemma_faults_stay(schema, batch, decodings, some, (all - 1) as nat);
    }
}

proof fn lemma_descriptor_columns_grow(batch: Batch, some: nat, all: nat)
    requires
        some <= all,
    ensures
        descriptor_columns(batch, some).len() <= descriptor_columns(batch, all).len(),
    decreases all - some,
{
    if some < all {
        lemma_descriptor_columns_grow(batch, some, (all - 1) as nat);
    }
}

fn sort_by_name(columns: Vec<BlobColumn>) -> (r: Vec<BlobColumn>)
    ensures
        column_views(r@) == in_name_order(column_views(columns@)),
        forall|k: int| 0 <= k < r@.len() ==> columns@.contains(#[trigger] r@[k]),
{
    let ghost given = columns@;
    let mut rest = columns;
    let mut sorted: Vec<BlobColumn> = Vec::new();
    let ghost mut done: int = 0;
    while rest.len() > 0
        invariant
            0 <= done <= given.len(),
            rest@ == given.skip(done),
            column_views(sorted@) == in_name_order(column_views(given.take(done))),
            forall|k: int| 0 <= k < sorted@.len() ==> given.contains(#[trigger] sorted@[k]),
        decreases rest.len(),
    {
        let column = rest.remove(0);
        proof {
            assert(column == given[done]);
            assert(column_views(given.take(done + 1)).drop_last() =~= column_views(
                given.take(done),
            ));
            assert(column_views(given.take(done + 1)).last() == column@);
            assert(rest@ =~= given.skip(done + 1));
        }
        place(&mut sorted, column);
        proof {
            done = done + 1;
        }
    }
    assert(given.take(done) =~= given);
    sorted
}

fn place(sorted: &mut Vec<BlobColumn>, column: BlobColumn)
    ensures
        column_views(final(sorted)@) == placed_by_name(column_views(old(sorted)@), column@),
        forall|k: int|
            0 <= k < final(sorted)@.len() ==> (#[trigger] final(sorted)@[k]) == column || old(
                sorted,
            )@.contains(final(sorted)@[k]),
{
    let ghost before = sorted@;
    let ghost views = column_views(sorted@);
    let mut at: usize = sorted.len();
    assert(views.take(at as int) =~= views);
    assert(placed_by_name(views, column@) =~= placed_by_name(views, column@) + views.skip(at as int));
    while at > 0 && is_text_less(column.name.as_str(), sorted[at - 1].name.as_str())
        invariant
            at <= sorted.len(),
            sorted@ == before,
            views == column_views(before),
            placed_by_name(views, column@) == placed_by_name(views.take(at as int), column@)
                + views.skip(at as int),
        decreases at,
    {
        proof {
            let shorter = views.take(at - 1);
            assert(views.take(at as int).drop_last() =~= shorter);
            assert(placed_by_name(shorter, column@).push(views[at - 1]) + views.skip(at as int)
                =~= placed_by_name(shorter, column@) + views.skip(at - 1));
        }
        at = at - 1;
    }
    sorted.insert(at, column);
    proof {
        assert(column_views(sorted@) =~= views.take(at as int).push(column@) + views.skip(at as int));
        assert forall|k: int| 0 <= k < sorted@.len() implies (#[trigger] sorted@[k]) == column
            || before.contains(sorted@[k]) by {
            if k < at {
                assert(sorted@[k] == before[k]);
            } else if k > at {
                assert(sorted@[k] == before[k - 1]);
            }
        }
    }
}

fn identities_of(
    by_id: &HashMap<u64, &Fragment>,
    Ghost(fragments): Ghost<Seq<Fragment>>,
    columns: &Vec<BlobColumn>,
    decodings: &Vec<BlobDecoding>,
    fragment_id: u64,
    row: usize,
) -> (r: Result<Vec<BlobColumnSig>, OmniError>)
    requires
        forall|id: u64| #[trigger]
            by_id@.contains_key(id) <==> table::fragment_map(fragments).contains_key(id),
        forall|id: u64| #[trigger]
            by_id@.contains_key(id) ==> *by_id@[id] == table::fragment_map(fragments)[id],
        forall|k: int|
            0 <= k < columns@.len() ==> (#[trigger] columns@[k]).slot < decodings@.len()
                && decodings@[columns@[k].slot as int] is Rows
                && decodings@[columns@[k].slot as int]->Rows_0@.len() > row,
    ensures
        match (
            r,
            identities_in(
                fragments,
                column_views(columns@),
                decoding_views(decodings@),
                fragment_id,
                row as int,
            ),
        ) {
            (Ok(signatures), Ok(expected)) => row_compare::signature_views(signatures@) == expected,
            (Err(error), Err(fault)) => reports(fault, error),
            _ => false,
        },
{
    let ghost views = column_views(columns@);
    let ghost given = decoding_views(decodings@);
    let mut signatures: Vec<BlobColumnSig> = Vec::new();
    let mut i: usize = 0;
    proof {
        assert(row_compare::signature_views(signatures@) =~= Seq::empty());
    }
    while i < columns.len()
        invariant
            i <= columns.len(),
            views == column_views(columns@),
            given == decoding_views(decodings@),
            forall|id: u64| #[trigger]
                by_id@.contains_key(id) <==> table::fragment_map(fragments).contains_key(id),
            forall|id: u64| #[trigger]
                by_id@.contains_key(id) ==> *by_id@[id] == table::fragment_map(fragments)[id],
            forall|k: int|
                0 <= k < columns@.len() ==> (#[trigger] columns@[k]).slot < decodings@.len()
                    && decodings@[columns@[k].slot as int] is Rows
                    && decodings@[columns@[k].slot as int]->Rows_0@.len() > row,
            identities_in(fragments, views.take(i as int), given, fragment_id, row as int) == Ok::<
                Seq<(Seq<char>, IdentityView)>,
                BatchFault,
            >(row_compare::signature_views(signatures@)),
        decreases columns.len() - i,
    {
        let column = &columns[i];
        proof {
            assert(views.take(i + 1).drop_last() =~= views.take(i as int));
            assert(views.take(i + 1).last() == column@);
            lemma_row_faults_stay(
                fragments,
                views,
                given,
                fragment_id,
                row as int,
                (i + 1) as nat,
                views.len(),
            );
            assert(views.take(views.len() as int) =~= views);
            assert(columns@[i as int].slot < decodings@.len());
            assert(given[column.slot as int] == decodings@[column.slot as int]@);
        }
        let path: &str = match data_file_path_for_field(by_id, fragment_id, column.field_id) {
            Ok(path) => path,
            Err(error) => {
                return Err(error);
            },
        };
        let cell: &Result<BlobDescriptor, String> = match &decodings[column.slot] {
            BlobDecoding::Rows(rows) => {
                assert(given[column.slot as int]->Rows_0[row as int] == (match rows@[row as int] {
                    Ok(descriptor) => Ok::<DescriptorView, Seq<char>>(descriptor@),
                    Err(reason) => Err::<DescriptorView, Seq<char>>(reason@),
                }));
                &rows[row]
            },
            BlobDecoding::Unreadable(reason) => {
                return Err(OmniError::blob_integrity(reason.clone()));
            },
        };
        let descriptor: &BlobDescriptor = match cell {
            Ok(descriptor) => descriptor,
            Err(reason) => {
                return Err(OmniError::blob_integrity(reason.clone()));
            },
        };
        let ghost before = signatures@;
        signatures.push(
            BlobColumnSig {
                name: column.name.clone(),
                identity: descriptor.physical_identity(path),
            },
        );
        proof {
            assert(row_compare::signature_views(signatures@) =~= row_compare::signature_views(before).push(
                signatures@.last()@,
            ));
        }
        i = i + 1;
    }
    assert(views.take(i as int) =~= views);
    Ok(signatures)
}

proof fn lemma_row_faults_stay(
    fragments: Seq<Fragment>,
    columns: Seq<BlobColumnView>,
    decodings: Seq<DecodingView>,
    fragment_id: u64,
    row: int,
    some: nat,
    all: nat,
)
    requires
        some <= all <= columns.len(),
    ensures
        identities_in(fragments, columns.take(some as int), decodings, fragment_id, row) matches Err(
            fault,
        ) ==> identities_in(fragments, columns.take(all as int), decodings, fragment_id, row)
            == Err::<Seq<(Seq<char>, IdentityView)>, BatchFault>(fault),
    decreases all - some,
{
    if some < all {
        lemma_row_faults_stay(
            fragments,
            columns,
            decodings,
            fragment_id,
            row,
            some,
            (all - 1) as nat,
        );
        assert(columns.take(all as int).drop_last() =~= columns.take(all - 1));
    }
}

proof fn lemma_batch_faults_stay(
    fragments: Seq<Fragment>,
    batch: Batch,
    columns: Seq<BlobColumnView>,
    decodings: Seq<DecodingView>,
    some: nat,
    all: nat,
)
    requires
        some <= all,
    ensures
        rows_among(fragments, batch, columns, decodings, some) matches Err(fault) ==> rows_among(
            fragments,
            batch,
            columns,
            decodings,
            all,
        ) == Err::<Seq<RowView>, BatchFault>(fault),
    decreases all - some,
{
    if some < all {
        lemma_batch_faults_stay(fragments, batch, columns, decodings, some, (all - 1) as nat);
    }
}

/// Whether the rows hold the one-row slices of a batch, in its order.
pub open spec fn are_slices(batch: Batch, rows: Seq<RawRow>) -> bool {
    &&& rows.len() == batch::batch_rows(batch)
    &&& forall|i: int|
        0 <= i < rows.len() ==> batch::is_row_slice(batch, i, (#[trigger] rows[i]).batch())
}

/// Turns one scanned batch into comparison-ready rows: one-row slices with the
/// physical identities of the Blob columns. `decodings` holds what decoding the
/// columns of [`blob_columns_to_decode`] gave, in that order. Everything is read
/// from memory.
pub fn prepare_batch(
    snapshot: &TableSnapshot,
    schema: &Schema,
    batch: &Batch,
    decodings: &Vec<BlobDecoding>,
) -> (r: Result<VecDeque<RawRow>, OmniError>)
    requires
        decodings_fit(*batch, decoding_views(decodings@)),
    ensures
        match (
            r,
            prepared(snapshot.fragments@, *schema, *batch, decoding_views(decodings@)),
        ) {
            (Ok(rows), Ok(expected)) => row_compare::row_views(rows@) == expected && are_slices(
                *batch,
                rows@,
            ),
            (Err(error), Err(fault)) => reports(fault, error),
            _ => false,
        },
{
    if !has_text_column(batch, "id") {
        return Err(unclassified_storage(String::from_str("change row is missing string id")));
    }
    let columns: Vec<BlobColumn> = match collect_blob_columns(schema, batch, decodings) {
        Ok(columns) => columns,
        Err(error) => {
            return Err(error);
        },
    };
    let blobs = columns.len() > 0;
    let ghost unsorted = columns@;
    let columns: Vec<BlobColumn> = sort_by_name(columns);
    let ghost views = column_views(columns@);
    let ghost given = decoding_views(decodings@);
    let ghost fragments = snapshot.fragments@;
    if blobs && !has_number_column(batch, "_rowaddr") {
        return Err(
            unclassified_storage(
                String::from_str(
                    "change scan is missing _rowaddr; managed Blob comparison needs the owning data file",
                ),
            ),
        );
    }
    proof {
        lemma_name_order_len(column_views(unsorted));
        assert forall|k: int| 0 <= k < columns@.len() implies (#[trigger] columns@[k]).slot
            < decodings@.len() && decodings@[columns@[k].slot as int] is Rows
            && decodings@[columns@[k].slot as int]->Rows_0@.len()
            == batch::batch_rows(*batch) by {
            assert(unsorted.contains(columns@[k]));
            let slot = columns@[k].slot as int;
            assert(given[slot] == decodings@[slot]@);
        }
    }
    let by_id: HashMap<u64, &Fragment> = fragments_by_id(&snapshot.fragments);
    let total: usize = row_count(batch);
    let mut rows: VecDeque<RawRow> = VecDeque::with_capacity(total);
    let mut row: usize = 0;
    proof {
        assert(row_compare::row_views(rows@) =~= Seq::empty());
    }
    while row < total
        invariant
            row <= total,
            total == batch::batch_rows(*batch),
            rows@.len() == row,
            forall|i: int|
                0 <= i < row ==> batch::is_row_slice(*batch, i, (#[trigger] rows@[i]).batch()),
            batch::batch_texts(*batch).contains_key("id"@),
            views == column_views(columns@),
            given == decoding_views(decodings@),
            fragments == snapshot.fragments@,
            blobs <==> columns@.len() > 0,
            blobs ==> batch::batch_numbers(*batch).contains_key("_rowaddr"@),
            forall|id: u64| #[trigger]
                by_id@.contains_key(id) <==> table::fragment_map(fragments).contains_key(id),
            forall|id: u64| #[trigger]
                by_id@.contains_key(id) ==> *by_id@[id] == table::fragment_map(fragments)[id],
            forall|k: int|
                0 <= k < columns@.len() ==> (#[trigger] columns@[k]).slot < decodings@.len()
                    && decodings@[columns@[k].slot as int] is Rows
                    && decodings@[columns@[k].slot as int]->Rows_0@.len() == total,
            rows_among(fragments, *batch, views, given, row as nat) == Ok::<
                Seq<RowView>,
                BatchFault,
            >(row_compare::row_views(rows@)),
            match prepared(snapshot.fragments@, *schema, *batch, given) {
                Ok(expected) => rows_among(fragments, *batch, views, given, total as nat) == Ok::<
                    Seq<RowView>,
                    BatchFault,
                >(expected),
                Err(fault) => rows_among(fragments, *batch, views, given, total as nat) == Err::<
                    Seq<RowView>,
                    BatchFault,
                >(fault),
            },
        decreases total - row,
    {
        proof {
            lemma_batch_faults_stay(
                fragments,
                *batch,
                views,
                given,
                (row + 1) as nat,
                total as nat,
            );
        }
        let signatures: Vec<BlobColumnSig> = if blobs {
            let address: u64 = match number_at(batch, "_rowaddr", row) {
                Some(address) => address,
                None => 0,
            };
            match identities_of(
                &by_id,
                Ghost(fragments),
                &columns,
                decodings,
                address >> 32u64,
                row,
            ) {
                Ok(signatures) => signatures,
                Err(error) => {
                    return Err(error);
                },
            }
        } else {
            let none: Vec<BlobColumnSig> = Vec::new();
            proof {
                assert(row_compare::signature_views(none@) =~= Seq::empty());
            }
            none
        };
        let id: String = match text_at(batch, "id", row) {
            Some(id) => id,
            None => String::new(),
        };
        let slice = row_slice(batch, row);
        assert(batch::is_row_slice(*batch, row as int, slice));
        let ghost before = rows@;
        let prepared_row = RawRow::new(id, slice, signatures);
        proof {
            lemma_sliced_row(*batch, slice, row as int, row_compare::signature_views(signatures@));
        }
        rows.push_back(prepared_row);
        proof {
            assert(row_compare::row_views(rows@) =~= row_compare::row_views(before).push(prepared_row@));
        }
        row = row + 1;
    }
    Ok(rows)
}

proof fn lemma_name_order_len(columns: Seq<BlobColumnView>)
    ensures
        in_name_order(columns).len() == columns.len(),
    decreases columns.len(),
{
    if columns.len() > 0 {
        lemma_name_order_len(columns.drop_last());
        lemma_placed_len(in_name_order(columns.drop_last()), columns.last());
    }
}

proof fn lemma_placed_len(columns: Seq<BlobColumnView>, column: BlobColumnView)
    ensures
        placed_by_name(columns, column).len() == columns.len() + 1,
    decreases columns.len(),
{
    if columns.len() > 0 && text::text_less(column.name, columns.last().name) {
        lemma_placed_len(columns.drop_last(), column);
    }
}

proof fn lemma_row_of_row(batch: BatchView, row: int)
    ensures
        batch::one_row(batch::one_row(batch, row), 0) == batch::one_row(batch, row),
{
    let whole = batch::one_row(batch, row);
    let part = batch::one_row(whole, 0);
    assert(part.columns =~= whole.columns);
    assert(part.texts =~= whole.texts);
    assert(part.numbers =~= whole.numbers);
}

proof fn lemma_sliced_row(
    batch: Batch,
    slice: Batch,
    row: int,
    blobs: Seq<(Seq<char>, IdentityView)>,
)
    requires
        0 <= row < batch::batch_rows(batch),
        batch::batch_texts(batch).contains_key("id"@),
        batch::is_row_slice(batch, row, slice),
    ensures
        row_compare::row_at(slice, 0, blobs) == row_compare::row_at(batch, row, blobs),
{
    lemma_row_of_row(batch::batch_view(batch), row);
    assert(row_compare::row_at(slice, 0, blobs).cells =~= row_compare::row_at(batch, row, blobs).cells);
}

proof fn lemma_placed(columns: Seq<BlobColumnView>, column: BlobColumnView)
    requires
        forall|i: int, j: int|
            0 <= i <= j < columns.len() ==> !text::text_less(
                (#[trigger] columns[j]).name,
                (#[trigger] columns[i]).name,
            ),
    ensures
        placed_by_name(columns, column).to_multiset() == columns.push(column).to_multiset(),
        forall|i: int, j: int|
            0 <= i <= j < placed_by_name(columns, column).len() ==> !text::text_less(
                (#[trigger] placed_by_name(columns, column)[j]).name,
                (#[trigger] placed_by_name(columns, column)[i]).name,
            ),
    decreases columns.len(),
{
    broadcast use vstd::seq_lib::group_to_multiset_ensures;

    let placed = placed_by_name(columns, column);
    if columns.len() > 0 && text::text_less(column.name, columns.last().name) {
        let shorter = columns.drop_last();
        let inner = placed_by_name(shorter, column);
        lemma_placed(shorter, column);
        assert(columns =~= shorter.push(columns.last()));
        assert(shorter.push(columns.last()).push(column).to_multiset() =~= shorter.push(
            column,
        ).push(columns.last()).to_multiset());
        assert forall|i: int, j: int| 0 <= i <= j < placed.len() implies !text::text_less(
            (#[trigger] placed[j]).name,
            (#[trigger] placed[i]).name,
        ) by {
            text::text_order_is_total(placed[i].name, placed[j].name);
            if j < inner.len() {
                assert(placed[i] == inner[i]);
                assert(placed[j] == inner[j]);
            } else if i < inner.len() {
                assert(inner.to_multiset().count(inner[i]) > 0);
                assert(shorter.push(column).contains(inner[i]));
                let k = choose|k: int|
                    0 <= k < shorter.push(column).len() && shorter.push(column)[k] == inner[i];
                if k < shorter.len() {
                    assert(columns[k] == inner[i]);
                    assert(!text::text_less(columns[columns.len() - 1].name, columns[k].name));
                } else {
                    text::text_order_is_total(column.name, columns.last().name);
                }
            }
        }
    } else {
        assert forall|i: int, j: int| 0 <= i <= j < placed.len() implies !text::text_less(
            (#[trigger] placed[j]).name,
            (#[trigger] placed[i]).name,
        ) by {
            if j < columns.len() {
                assert(placed[i] == columns[i]);
                assert(placed[j] == columns[j]);
            } else if i < columns.len() {
                assert(placed[i] == columns[i]);
                let last = columns[columns.len() - 1];
                assert(!text::text_less(last.name, columns[i].name));
                if text::text_less(column.name, columns[i].name) {
                    text::text_order_is_total(columns[i].name, last.name);
                    if columns[i].name != last.name {
                        text::text_order_is_transitive(
                            column.name,
                            columns[i].name,
                            last.name,
                        );
                    }
                }
            } else {
                text::text_order_is_total(column.name, column.name);
            }
        }
    }
}

/// Ordering the Blob columns by name keeps them all, and no column precedes one
/// that it follows by name: two rows of one schema list their Blob columns
/// alike, whatever the order of the physical columns.
pub proof fn name_order_sorts_the_columns(columns: Seq<BlobColumnView>)
    ensures
        in_name_order(columns).to_multiset() == columns.to_multiset(),
        forall|i: int, j: int|
            0 <= i <= j < in_name_order(columns).len() ==> !text::text_less(
                (#[trigger] in_name_order(columns)[j]).name,
                (#[trigger] in_name_order(columns)[i]).name,
            ),
    decreases columns.len(),
{
    broadcast use vstd::seq_lib::group_to_multiset_ensures;

    if columns.len() > 0 {
        let shorter = columns.drop_last();
        name_order_sorts_the_columns(shorter);
        lemma_placed(in_name_order(shorter), columns.last());
        assert(columns =~= shorter.push(columns.last()));
    }
}

impl RawRow {
    /// Prepares one row of a scanned batch.
    pub fn single(
        snapshot: &TableSnapshot,
        schema: &Schema,
        batch: &Batch,
        row_index: usize,
        decodings: &Vec<BlobDecoding>,
    ) -> (r: Result<RawRow, OmniError>)
        requires
            row_index < batch::batch_rows(*batch),
            decodings@.len() == all_descriptor_columns(*batch).len(),
            forall|i: int|
                0 <= i < decodings@.len() ==> (#[trigger] decodings@[i] matches BlobDecoding::Rows(
                    rows,
                ) ==> rows@.len() == 1),
        ensures
            exists|slice: Batch| #[trigger]
                batch::is_row_slice(*batch, row_index as int, slice) && match (
                    r,
                    prepared(snapshot.fragments@, *schema, slice, decoding_views(decodings@)),
                ) {
                    (Ok(row), Ok(expected)) => seq![row@] == expected && batch::is_row_slice(
                        *batch,
                        row_index as int,
                        row.batch(),
                    ),
                    (Err(error), Err(fault)) => reports(fault, error),
                    _ => false,
                },
    {
        let slice = row_slice(batch, row_index);
        proof {
            assert(batch::is_row_slice(*batch, row_index as int, slice));
            lemma_slice_descriptors(*batch, slice, batch::batch_columns(*batch).len());
            assert forall|i: int| 0 <= i < decodings@.len() implies (#[trigger] decoding_views(
                decodings@,
            )[i] matches DecodingView::Rows(rows) ==> rows.len() == 1) by {
                assert(decoding_views(decodings@)[i] == decodings@[i]@);
            }
        }
        match prepare_batch(snapshot, schema, &slice, decodings) {
            Ok(rows) => {
                let mut rows = rows;
                proof {
                    lemma_prepared_len(
                        snapshot.fragments@,
                        *schema,
                        slice,
                        decoding_views(decodings@),
                    );
                }
                let ghost all = rows@;
                proof {
                    lemma_row_of_row(batch::batch_view(*batch), row_index as int);
                    assert(batch::is_row_slice(slice, 0, all[0].batch()));
                }
                match rows.pop_front() {
                    Some(row) => {
                        assert(row_compare::row_views(all) =~= seq![row@]);
                        Ok(row)
                    },
                    None => Err(
                        OmniError::manifest_internal(
                            String::from_str("single-row batch produced no comparison row"),
                        ),
                    ),
                }
            },
            Err(error) => Err(error),
        }
    }
}

proof fn lemma_slice_descriptors(batch: Batch, slice: Batch, count: nat)
    requires
        count <= batch::batch_columns(batch).len(),
        batch::batch_columns(slice).len() == batch::batch_columns(batch).len(),
        forall|i: int|
            0 <= i < batch::batch_columns(batch).len() ==> (
            #[trigger] batch::batch_columns(slice)[i]).0
                == batch::batch_columns(batch)[i].0,
        batch::batch_metadata(slice) == batch::batch_metadata(batch),
        batch::batch_structs(slice) == batch::batch_structs(batch),
        batch::batch_refusals(slice) == batch::batch_refusals(batch),
    ensures
        descriptor_columns(slice, count) == descriptor_columns(batch, count),
    decreases count,
{
    if count > 0 {
        lemma_slice_descriptors(batch, slice, (count - 1) as nat);
        assert(batch::batch_columns(slice)[count - 1].0
            == batch::batch_columns(batch)[count - 1].0);
    }
}

proof fn lemma_rows_among_len(
    fragments: Seq<Fragment>,
    batch: Batch,
    columns: Seq<BlobColumnView>,
    decodings: Seq<DecodingView>,
    count: nat,
)
    ensures
        rows_among(fragments, batch, columns, decodings, count) matches Ok(rows) ==> rows.len()
            == count,
    decreases count,
{
    if count > 0 {
        lemma_rows_among_len(fragments, batch, columns, decodings, (count - 1) as nat);
    }
}

proof fn lemma_prepared_len(
    fragments: Seq<Fragment>,
    schema: Schema,
    batch: Batch,
    decodings: Seq<DecodingView>,
)
    ensures
        prepared(fragments, schema, batch, decodings) matches Ok(rows) ==> rows.len()
            == batch::batch_rows(batch),
{
    match blob_columns_among(
        schema,
        batch,
        decodings,
        batch::batch_columns(batch).len(),
    ) {
        Ok(columns) => {
            lemma_rows_among_len(
                fragments,
                batch,
                in_name_order(columns),
                decodings,
                batch::batch_rows(batch),
            );
        },
        Err(_) => {},
    }
}

} // verus!
